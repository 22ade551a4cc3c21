//! The encodings of parquet pages, as far as it takes to tell bytes that can be decoded from bytes that
//! cannot.

use vstd::prelude::*;
use vstd::slice::slice_subrange;

use crate::parquet::packed_values;
use crate::parquet::unpack;

verus! {

/// The largest number that bytes from the `k`-th on contribute to a variable-length number.
pub open spec fn varint_limit(k: nat) -> nat
    decreases 10 - k,
{
    if k >= 10 {
        0
    } else {
        127 + 128 * varint_limit(k + 1)
    }
}

/// The bounds of a variable-length number.
proof fn lemma_varint_limit(k: nat)
    ensures
        varint_limit(k) <= 0x40_0000_0000_0000_0000,
{
    reveal_with_fuel(varint_limit, 11);
    if k < 10 {
        assert(k == 0 || k == 1 || k == 2 || k == 3 || k == 4 || k == 5 || k == 6 || k == 7 || k == 8 || k == 9);
    }
}

/// A variable-length number at a position, from its `k`-th byte on, and the position after it; `None`
/// where it does not end, or is too large. Seven bits of a byte count, the lowest first, and the eighth
/// tells whether there are more.
pub open spec fn varint_from(bytes: Seq<u8>, at: int, k: nat) -> Option<(nat, int)>
    decreases 10 - k,
{
    if !(0 <= at < bytes.len()) || k >= 10 || k == 9 && bytes[at] > 1 {
        None
    } else if bytes[at] < 128 {
        Some((bytes[at] as nat, at + 1))
    } else {
        match varint_from(bytes, at + 1, k + 1) {
            Some((value, end)) => Some(((bytes[at] - 128 + 128 * value) as nat, end)),
            None => None,
        }
    }
}

/// A variable-length number at a position, and the position after it.
pub open spec fn varint(bytes: Seq<u8>, at: int) -> Option<(nat, int)> {
    varint_from(bytes, at, 0)
}

/// Where a variable-length number ends.
pub proof fn lemma_varint_end(bytes: Seq<u8>, at: int, k: nat)
    ensures
        varint_from(bytes, at, k) matches Some((value, end)) ==> at < end <= bytes.len(),
    decreases 10 - k,
{
    if 0 <= at < bytes.len() && k < 10 {
        lemma_varint_end(bytes, at + 1, k + 1);
    }
}

/// Reads a variable-length number, from its `k`-th byte on.
fn read_varint_from(bytes: &[u8], at: usize, k: u8) -> (r: Option<(u128, usize)>)
    ensures
        match r {
            Some((value, end)) => varint_from(bytes@, at as int, k as nat) == Some((value as nat, end as int)),
            None => varint_from(bytes@, at as int, k as nat) is None,
        },
        r matches Some((value, end)) ==> value <= varint_limit(k as nat) && at < end <= bytes.len(),
    decreases 10 - k,
{
    proof {
        lemma_varint_limit(k as nat);
    }
    if at >= bytes.len() || k >= 10 || k == 9 && bytes[at] > 1 {
        return None;
    }
    let byte: u8 = bytes[at];
    if byte < 128 {
        return Some((byte as u128, at + 1));
    }
    match read_varint_from(bytes, at + 1, k + 1) {
        Some((value, end)) => Some(((byte - 128) as u128 + 128 * value, end)),
        None => None,
    }
}

/// Reads a variable-length number.
fn read_varint(bytes: &[u8], at: usize) -> (r: Option<(u128, usize)>)
    ensures
        match r {
            Some((value, end)) => varint(bytes@, at as int) == Some((value as nat, end as int)),
            None => varint(bytes@, at as int) is None,
        },
        r matches Some((value, end)) ==> value <= 0x40_0000_0000_0000_0000 && at < end <= bytes.len(),
{
    proof {
        lemma_varint_limit(0);
    }
    read_varint_from(bytes, at, 0)
}

/// The most groups of eight values that a run of packed values may have.
pub const MOST_GROUPS: u64 = 0x1_0000_0000;

/// Whether bytes, from a position on, are runs of values of so many bits, repeated ones and packed ones
/// in any order, as far as it takes to have `need` values. Where `padded` is set, the runs may end before.
pub open spec fn is_runs(bytes: Seq<u8>, at: int, bits: nat, need: nat, padded: bool) -> bool
    decreases bytes.len() - at,
{
    if need == 0 {
        true
    } else if bits == 0 || !(0 <= at < bytes.len()) {
        padded
    } else {
        match varint(bytes, at) {
            None => false,
            Some((head, start)) => {
                let values = head / 2;
                if !(at < start < bytes.len()) {
                    padded
                } else if values == 0 {
                    false
                } else if head % 2 == 1 {
                    let size = if values * bits <= bytes.len() - start {
                        (values * bits) as int
                    } else {
                        bytes.len() - start
                    };
                    values <= MOST_GROUPS && is_runs(
                        bytes,
                        start + size,
                        bits,
                        less(need, (size * 8) as nat / bits),
                        padded,
                    )
                } else {
                    let size = (bits + 7) / 8;
                    start + size <= bytes.len() && is_runs(bytes, start + size, bits, less(need, values), padded)
                }
            },
        }
    }
}

/// Runs that have as many values as it takes are sound runs.
pub proof fn lemma_runs_may_be_padded(bytes: Seq<u8>, at: int, bits: nat, need: nat)
    requires
        is_runs(bytes, at, bits, need, false),
    ensures
        is_runs(bytes, at, bits, need, true),
    decreases bytes.len() - at,
{
    if need > 0 && bits != 0 && 0 <= at < bytes.len() {
        if let Some((head, start)) = varint(bytes, at) {
            let values = head / 2;
            if at < start < bytes.len() && values != 0 {
                if head % 2 == 1 {
                    let size = if values * bits <= bytes.len() - start {
                        (values * bits) as int
                    } else {
                        bytes.len() - start
                    };
                    assert(values * bits > 0) by (nonlinear_arith)
                        requires
                            values > 0,
                            bits > 0,
                    ;
                    let count = (size * 8) as nat / bits;
                    lemma_runs_may_be_padded(bytes, start + size, bits, less(need, count));
                } else {
                    lemma_runs_may_be_padded(bytes, start + (bits + 7) / 8, bits, less(need, values));
                }
            }
        }
    }
}

/// What is left of a number.
pub open spec fn less(need: nat, by: nat) -> nat {
    if need <= by {
        0
    } else {
        (need - by) as nat
    }
}

/// Tells whether bytes are runs of values of so many bits, as far as it takes to have `need` values.
pub fn check_runs(bytes: &[u8], bits: u32, need: usize, padded: bool) -> (r: bool)
    requires
        bits <= 32,
    ensures
        r == is_runs(bytes@, 0, bits as nat, need as nat, padded),
{
    let mut at: usize = 0;
    let mut left: usize = need;
    if bits == 0 {
        return need == 0 || padded;
    }
    while left > 0 && at < bytes.len()
        invariant
            0 < bits <= 32,
            at <= bytes.len(),
            is_runs(bytes@, 0, bits as nat, need as nat, padded) == is_runs(
                bytes@,
                at as int,
                bits as nat,
                left as nat,
                padded,
            ),
        decreases bytes.len() - at,
    {
        proof {
            lemma_varint_end(bytes@, at as int, 0);
        }
        match read_varint(bytes, at) {
            None => return false,
            Some((head, start)) => {
                if start >= bytes.len() {
                    return padded;
                }
                let values: u128 = head / 2;
                if values == 0 {
                    return false;
                }
                let rest: u128 = (bytes.len() - start) as u128;
                if head % 2 == 1 {
                    if values > MOST_GROUPS as u128 {
                        return false;
                    }
                    assert(values * bits <= MOST_GROUPS * 32) by (nonlinear_arith)
                        requires
                            values <= MOST_GROUPS,
                            bits <= 32,
                    ;
                    let packed: u128 = values * bits as u128;
                    let size: u128 = if packed <= rest {
                        packed
                    } else {
                        rest
                    };
                    assert(values * bits > 0) by (nonlinear_arith)
                        requires
                            values > 0,
                            bits > 0,
                    ;
                    let count: u128 = size * 8 / bits as u128;
                    left = if left as u128 <= count {
                        0
                    } else {
                        left - count as usize
                    };
                    at = start + size as usize;
                } else {
                    let size: u128 = (bits as u128 + 7) / 8;
                    if size > rest {
                        return false;
                    }
                    left = if left as u128 <= values {
                        0
                    } else {
                        left - values as usize
                    };
                    at = start + size as usize;
                }
            },
        }
    }
    left == 0 || padded
}

/// Whether so many values can be decoded from runs of values of so many bits. The first run is looked at
/// even if there is nothing to decode.
pub open spec fn runs_sound(bytes: Seq<u8>, bits: nat, count: usize) -> bool {
    is_runs(
        bytes,
        0,
        bits,
        if count == 0 {
            1
        } else {
            count as nat
        },
        true,
    )
}

/// Tells whether so many values can be decoded from runs of values of so many bits.
pub fn check_runs_sound(bytes: &[u8], bits: u32, count: usize) -> (r: bool)
    requires
        bits <= 32,
    ensures
        r == runs_sound(bytes@, bits as nat, count),
{
    let need: usize = if count == 0 {
        1
    } else {
        count
    };
    check_runs(bytes, bits, need, true)
}

/// The number that four bytes at a position hold, the lowest first.
pub open spec fn four_bytes(bytes: Seq<u8>, at: int) -> nat {
    (bytes[at] + 0x100 * bytes[at + 1] + 0x1_0000 * bytes[at + 2] + 0x100_0000 * bytes[at + 3]) as nat
}

/// Reads the number that four bytes at a position hold.
pub fn read_four_bytes(bytes: &[u8], at: usize) -> (r: u64)
    requires
        at + 4 <= bytes.len(),
    ensures
        r == four_bytes(bytes@, at as int),
        r <= u32::MAX,
{
    bytes[at] as u64 + 0x100 * bytes[at + 1] as u64 + 0x1_0000 * bytes[at + 2] as u64 + 0x100_0000
        * bytes[at + 3] as u64
}

/// Where the byte strings lie that bytes hold from a position on, each after its length in four bytes:
/// the start and the end of each, so many of them at most. `None` where a length or a byte string breaks
/// off. `found` are those before.
pub open spec fn byte_strings(bytes: Seq<u8>, at: int, most: nat, found: Seq<(usize, usize)>) -> Option<
    Seq<(usize, usize)>,
>
    decreases most,
{
    if most == 0 || !(0 <= at < bytes.len()) {
        Some(found)
    } else if at + 4 > bytes.len() || at + 4 + four_bytes(bytes, at) > bytes.len() {
        None
    } else {
        let end = at + 4 + four_bytes(bytes, at);
        byte_strings(bytes, end, (most - 1) as nat, found.push(((at + 4) as usize, end as usize)))
    }
}

/// Finds the byte strings that bytes hold, each after its length.
pub fn find_byte_strings(bytes: &[u8], most: usize) -> (r: Option<Vec<(usize, usize)>>)
    ensures
        match r {
            Some(strings) => byte_strings(bytes@, 0, most as nat, Seq::empty()) == Some(strings@),
            None => byte_strings(bytes@, 0, most as nat, Seq::empty()) is None,
        },
        r matches Some(strings) ==> forall|i: int|
            0 <= i < strings.len() ==> (#[trigger] strings@[i]).0 <= strings@[i].1 <= bytes.len(),
{
    let mut strings: Vec<(usize, usize)> = Vec::new();
    let mut at: usize = 0;
    let mut left: usize = most;
    assert(strings@ =~= Seq::<(usize, usize)>::empty());
    while left > 0 && at < bytes.len()
        invariant
            at <= bytes.len(),
            byte_strings(bytes@, 0, most as nat, Seq::empty()) == byte_strings(
                bytes@,
                at as int,
                left as nat,
                strings@,
            ),
            forall|i: int|
                0 <= i < strings.len() ==> (#[trigger] strings@[i]).0 <= strings@[i].1 <= bytes.len(),
        decreases left,
    {
        if bytes.len() - at < 4 {
            return None;
        }
        let length: u64 = read_four_bytes(bytes, at);
        if length > (bytes.len() - at - 4) as u64 {
            return None;
        }
        let end: usize = at + 4 + length as usize;
        strings.push((at + 4, end));
        at = end;
        left = left - 1;
    }
    Some(strings)
}

/// What the head of delta-encoded numbers says.
pub ghost struct DeltaHead {
    /// The number of parts of a block.
    pub parts: nat,
    /// The number of values of a part.
    pub part_values: nat,
    /// The number of values.
    pub count: nat,
    /// The first value.
    pub first: int,
    /// Where the blocks start.
    pub start: int,
}

/// The most values that a block of delta-encoded numbers may have.
pub const MOST_BLOCK_VALUES: u64 = 0x8000_0000;

/// A number with a sign, from one without: they alternate.
pub open spec fn zigzag(n: nat) -> int {
    if n % 2 == 0 {
        (n / 2) as int
    } else {
        -1 - n / 2
    }
}

/// Turns a number without a sign to one with a sign.
fn unzigzag(n: u128) -> (r: i128)
    requires
        n <= 0x40_0000_0000_0000_0000,
    ensures
        r == zigzag(n as nat),
        -0x40_0000_0000_0000_0000 <= r <= 0x40_0000_0000_0000_0000,
{
    if n % 2 == 0 {
        (n / 2) as i128
    } else {
        -1 - (n / 2) as i128
    }
}

/// Whether a number has 64 bits, one of them for its sign.
pub open spec fn is_i64(n: int) -> bool {
    i64::MIN <= n <= i64::MAX
}

/// Tells whether a number has 64 bits.
fn check_i64(n: i128) -> (r: bool)
    ensures
        r == is_i64(n as int),
{
    i64::MIN as i128 <= n && n <= i64::MAX as i128
}

/// Whether a number has 64 bits, and its product with a factor too.
pub open spec fn fits(n: int, factor: i64) -> bool {
    is_i64(n) && is_i64(n * factor)
}

/// Tells whether a number has 64 bits, and its product with a factor too.
pub fn check_fits(n: i128, factor: i64) -> (r: bool)
    ensures
        r == fits(n as int, factor),
{
    if !check_i64(n) {
        return false;
    }
    assert(-0x4000_0000_0000_0000_0000_0000_0000_0000 <= n * factor
        <= 0x4000_0000_0000_0000_0000_0000_0000_0000) by (nonlinear_arith)
        requires
            i64::MIN <= n <= i64::MAX,
            i64::MIN <= factor <= i64::MAX,
    ;
    check_i64(n * factor as i128)
}

/// A number of 64 bits with the first of them for its sign.
pub open spec fn signed(n: u64) -> int {
    if n <= i64::MAX {
        n as int
    } else {
        n - 0x1_0000_0000_0000_0000
    }
}

/// A value after differences from the `i`-th on, each over the least one; `None` where a difference or a value
/// does not fit.
pub open spec fn summed(least: int, differences: Seq<u64>, i: nat, value: int, factor: i64) -> Option<int>
    decreases differences.len() - i,
{
    if i >= differences.len() {
        Some(value)
    } else {
        let difference = least + signed(differences[i as int]);
        if is_i64(difference) && fits(value + difference, factor) {
            summed(least, differences, i + 1, value + difference, factor)
        } else {
            None
        }
    }
}

/// A value after so many differences that are all the least one; `None` where a value does not fit.
pub open spec fn summed_evenly(least: int, times: nat, value: int, factor: i64) -> Option<int>
    decreases times,
{
    if times == 0 {
        Some(value)
    } else if is_i64(least) && fits(value + least, factor) {
        summed_evenly(least, (times - 1) as nat, value + least, factor)
    } else {
        None
    }
}

/// Adds differences to a value.
fn add_differences(least: i128, differences: &Vec<u64>, value: i128, factor: i64) -> (r: Option<i128>)
    requires
        -0x40_0000_0000_0000_0000 <= least <= 0x40_0000_0000_0000_0000,
        is_i64(value as int),
    ensures
        match r {
            Some(sum) => summed(least as int, differences@, 0, value as int, factor) == Some(sum as int) && is_i64(
                sum as int,
            ),
            None => summed(least as int, differences@, 0, value as int, factor) is None,
        },
{
    let mut sum: i128 = value;
    for i in 0..differences.len()
        invariant
            -0x40_0000_0000_0000_0000 <= least <= 0x40_0000_0000_0000_0000,
            is_i64(sum as int),
            summed(least as int, differences@, 0, value as int, factor) == summed(
                least as int,
                differences@,
                i as nat,
                sum as int,
                factor,
            ),
    {
        let n: u64 = differences[i];
        let over: i128 = if n <= i64::MAX as u64 {
            n as i128
        } else {
            n as i128 - 0x1_0000_0000_0000_0000
        };
        let difference: i128 = least + over;
        if !check_i64(difference) || !check_fits(sum + difference, factor) {
            return None;
        }
        sum = sum + difference;
    }
    Some(sum)
}

/// Adds differences that are all the least one to a value.
fn add_evenly(least: i128, times: u128, value: i128, factor: i64) -> (r: Option<i128>)
    requires
        -0x40_0000_0000_0000_0000 <= least <= 0x40_0000_0000_0000_0000,
        is_i64(value as int),
    ensures
        match r {
            Some(sum) => summed_evenly(least as int, times as nat, value as int, factor) == Some(sum as int) && is_i64(
                sum as int,
            ),
            None => summed_evenly(least as int, times as nat, value as int, factor) is None,
        },
{
    let mut sum: i128 = value;
    let mut left: u128 = times;
    while left > 0
        invariant
            -0x40_0000_0000_0000_0000 <= least <= 0x40_0000_0000_0000_0000,
            is_i64(sum as int),
            summed_evenly(least as int, times as nat, value as int, factor) == summed_evenly(
                least as int,
                left as nat,
                sum as int,
                factor,
            ),
        decreases left,
    {
        if !check_i64(least) || !check_fits(sum + least, factor) {
            return None;
        }
        sum = sum + least;
        left = left - 1;
    }
    Some(sum)
}

/// What the head of delta-encoded numbers says: the size of a block, which is a multiple of 128, the
/// number of its parts, each of a multiple of eight values, the number of values, and the first of them.
pub open spec fn delta_head(bytes: Seq<u8>) -> Option<DeltaHead> {
    match varint(bytes, 0) {
        None => None,
        Some((block_values, a)) => match varint(bytes, a) {
            None => None,
            Some((parts, b)) => match varint(bytes, b) {
                None => None,
                Some((count, c)) => match varint(bytes, c) {
                    None => None,
                    Some((first, start)) => if 0 < block_values <= MOST_BLOCK_VALUES && block_values % 128 == 0
                        && 0 < parts <= block_values && (block_values / parts) % 8 == 0 && block_values / parts > 0
                        && count <= MOST_BLOCK_VALUES && is_i64(zigzag(first)) {
                        Some(
                            DeltaHead {
                                parts,
                                part_values: block_values / parts,
                                count,
                                first: zigzag(first),
                                start,
                            },
                        )
                    } else {
                        None
                    },
                },
            },
        },
    }
}

/// The smaller of two numbers.
pub open spec fn least_of(a: nat, b: nat) -> nat {
    if a <= b {
        a
    } else {
        b
    }
}

/// The position after the parts of a block of delta-encoded numbers, from the part `k` on, that hold
/// `left` differences, and the value after those; `None` where they break off, or a number does not fit. A
/// byte at `widths` plus `k` tells how many bits a difference of the part `k` has.
pub open spec fn delta_parts_end(
    bytes: Seq<u8>,
    head: DeltaHead,
    least: int,
    widths: int,
    k: nat,
    at: int,
    left: nat,
    value: int,
    factor: i64,
) -> Option<(int, int)>
    decreases head.parts - k,
{
    if k >= head.parts || left == 0 {
        Some((at, value))
    } else {
        let bits = bytes[widths + k] as nat;
        let end = at + head.part_values * bits / 8;
        let count = least_of(left, head.part_values);
        if bits > 64 || head.part_values * bits > usize::MAX || end > bytes.len() {
            None
        } else {
            let sum = if bits == 0 {
                summed_evenly(least, count, value, factor)
            } else {
                let differences = packed_values(bytes.subrange(at, end), bits as usize, count as usize);
                summed(least, differences, 0, value, factor)
            };
            match sum {
                None => None,
                Some(value) => delta_parts_end(
                    bytes,
                    head,
                    least,
                    widths,
                    k + 1,
                    end,
                    less(left, head.part_values),
                    value,
                    factor,
                ),
            }
        }
    }
}

/// Whether bytes, from a position on, are blocks of delta-encoded numbers that hold `left` differences: each
/// starts with the least difference, and with the widths of its parts.
pub open spec fn is_delta_blocks(
    bytes: Seq<u8>,
    head: DeltaHead,
    at: int,
    left: nat,
    value: int,
    factor: i64,
) -> bool
    decreases left,
{
    if left == 0 {
        true
    } else {
        match varint(bytes, at) {
            None => false,
            Some((least, widths)) => if widths + head.parts > bytes.len() {
                false
            } else {
                match delta_parts_end(
                    bytes,
                    head,
                    zigzag(least),
                    widths,
                    0,
                    widths + head.parts,
                    left,
                    value,
                    factor,
                ) {
                    None => false,
                    Some((end, value)) => head.parts * head.part_values > 0 && is_delta_blocks(
                        bytes,
                        head,
                        end,
                        less(left, head.parts * head.part_values),
                        value,
                        factor,
                    ),
                }
            },
        }
    }
}

/// Whether bytes start with delta-encoded numbers, all of which have 64 bits, and their products with a factor
/// too.
pub open spec fn is_delta(bytes: Seq<u8>, factor: i64) -> bool {
    delta_head(bytes) matches Some(head) && fits(head.first, factor) && is_delta_blocks(
        bytes,
        head,
        head.start,
        less(head.count, 1),
        head.first,
        factor,
    )
}

/// The number of delta-encoded numbers that bytes start with.
pub open spec fn delta_count(bytes: Seq<u8>) -> nat {
    match delta_head(bytes) {
        Some(head) => head.count,
        None => 0,
    }
}

/// Adds the differences of a part of a block of delta-encoded numbers to a value.
fn add_part(
    bytes: &[u8],
    bits: usize,
    part_values: u128,
    least: i128,
    count: u128,
    value: i128,
    factor: i64,
) -> (r: Option<i128>)
    requires
        bits <= 64,
        count <= part_values <= MOST_BLOCK_VALUES,
        part_values % 8 == 0,
        part_values > 0,
        bytes.len() == part_values * bits / 8,
        part_values * bits <= usize::MAX,
        -0x40_0000_0000_0000_0000 <= least <= 0x40_0000_0000_0000_0000,
        is_i64(value as int),
    ensures
        ({
            let sum = if bits == 0 {
                summed_evenly(least as int, count as nat, value as int, factor)
            } else {
                summed(least as int, packed_values(bytes@, bits, count as usize), 0, value as int, factor)
            };
            match r {
                Some(v) => sum == Some(v as int) && is_i64(v as int),
                None => sum is None,
            }
        }),
{
    if bits == 0 {
        return add_evenly(least, count, value, factor);
    }
    let ghost groups = part_values as int / 8;
    assert(part_values * bits == 8 * (groups * bits)) by (nonlinear_arith)
        requires
            part_values == 8 * groups,
    ;
    assert(8 * bytes.len() == part_values * bits);
    assert(count * bits <= part_values * bits && 0 < part_values * bits <= MOST_BLOCK_VALUES * 64)
        by (nonlinear_arith)
        requires
            count <= part_values <= MOST_BLOCK_VALUES,
            0 < bits <= 64,
            part_values > 0,
    ;
    let differences = unpack(bytes, bits, count as usize);
    add_differences(least, &differences, value, factor)
}

/// Tells how many delta-encoded numbers bytes start with; `None` where they do not start with such, or a number
/// or its product with a factor does not have 64 bits.
pub fn check_delta(bytes: &[u8], factor: i64) -> (r: Option<usize>)
    ensures
        match r {
            Some(count) => is_delta(bytes@, factor) && delta_count(bytes@) == count,
            None => !is_delta(bytes@, factor),
        },
{
    let (block_values, a) = match read_varint(bytes, 0) {
        Some(read) => read,
        None => return None,
    };
    let (parts, b) = match read_varint(bytes, a) {
        Some(read) => read,
        None => return None,
    };
    let (count, c) = match read_varint(bytes, b) {
        Some(read) => read,
        None => return None,
    };
    let (first, start) = match read_varint(bytes, c) {
        Some(read) => read,
        None => return None,
    };
    let first: i128 = unzigzag(first);
    if block_values == 0 || block_values > MOST_BLOCK_VALUES as u128 || block_values % 128 != 0 || parts == 0
        || parts > block_values || count > MOST_BLOCK_VALUES as u128 || !check_fits(first, factor) {
        return None;
    }
    let part_values: u128 = block_values / parts;
    if part_values % 8 != 0 || part_values == 0 {
        return None;
    }
    let ghost head = DeltaHead {
        parts: parts as nat,
        part_values: part_values as nat,
        count: count as nat,
        first: first as int,
        start: start as int,
    };
    assert(delta_head(bytes@) == Some(head));
    let mut at: usize = start;
    let mut value: i128 = first;
    let mut left: u128 = if count <= 1 {
        0
    } else {
        count - 1
    };
    while left > 0
        invariant
            head.parts == parts,
            head.part_values == part_values,
            head.count == count,
            delta_head(bytes@) == Some(head),
            count <= MOST_BLOCK_VALUES,
            0 < parts <= MOST_BLOCK_VALUES,
            0 < part_values <= MOST_BLOCK_VALUES,
            part_values % 8 == 0,
            left <= MOST_BLOCK_VALUES,
            at <= bytes.len(),
            is_i64(value as int),
            is_delta(bytes@, factor) == is_delta_blocks(
                bytes@,
                head,
                at as int,
                left as nat,
                value as int,
                factor,
            ),
        decreases left,
    {
        let (least, widths) = match read_varint(bytes, at) {
            Some(read) => read,
            None => return None,
        };
        let least: i128 = unzigzag(least);
        if parts > (bytes.len() - widths) as u128 {
            return None;
        }
        let mut end: usize = widths + parts as usize;
        let mut k: u128 = 0;
        let mut part_left: u128 = left;
        let ghost parts_end = delta_parts_end(
            bytes@,
            head,
            least as int,
            widths as int,
            0,
            end as int,
            left as nat,
            value as int,
            factor,
        );
        while k < parts && part_left > 0
            invariant
                head.parts == parts,
                head.part_values == part_values,
                0 < part_values <= MOST_BLOCK_VALUES,
                part_values % 8 == 0,
                widths + parts <= bytes.len(),
                k <= parts,
                end <= bytes.len(),
                is_i64(value as int),
                -0x40_0000_0000_0000_0000 <= least <= 0x40_0000_0000_0000_0000,
                parts_end is None ==> !is_delta(bytes@, factor),
                parts_end == delta_parts_end(
                    bytes@,
                    head,
                    least as int,
                    widths as int,
                    k as nat,
                    end as int,
                    part_left as nat,
                    value as int,
                    factor,
                ),
            decreases parts - k,
        {
            let bits: u128 = bytes[widths + k as usize] as u128;
            if bits > 64 {
                return None;
            }
            assert(part_values * bits <= MOST_BLOCK_VALUES * 64) by (nonlinear_arith)
                requires
                    part_values <= MOST_BLOCK_VALUES,
                    bits <= 64,
            ;
            let size: u128 = part_values * bits / 8;
            if part_values * bits > usize::MAX as u128 || size > (bytes.len() - end) as u128 {
                return None;
            }
            let part_count: u128 = if part_left <= part_values {
                part_left
            } else {
                part_values
            };
            let part = slice_subrange(bytes, end, end + size as usize);
            value = match add_part(part, bits as usize, part_values, least, part_count, value, factor) {
                Some(value) => value,
                None => return None,
            };
            end = end + size as usize;
            part_left = if part_left <= part_values {
                0
            } else {
                part_left - part_values
            };
            k = k + 1;
        }
        assert(parts_end == Some((end as int, value as int)));
        assert(0 < parts * part_values <= MOST_BLOCK_VALUES * MOST_BLOCK_VALUES) by (nonlinear_arith)
            requires
                0 < parts <= MOST_BLOCK_VALUES,
                0 < part_values <= MOST_BLOCK_VALUES,
        ;
        let block: u128 = parts * part_values;
        left = if left <= block {
            0
        } else {
            left - block
        };
        at = end;
    }
    Some(count as usize)
}

} // verus!
