//! The memory that the states of aggregate functions live in.

use bumpalo::Bump;
use vstd::arithmetic::div_mod::lemma_fundamental_div_mod;
use vstd::arithmetic::div_mod::lemma_fundamental_div_mod_converse;
use vstd::arithmetic::div_mod::lemma_mod_multiples_basic;
use vstd::arithmetic::power2::is_pow2;
use vstd::arithmetic::power2::lemma2_to64;
use vstd::arithmetic::power2::lemma2_to64_rest;
use vstd::arithmetic::power2::lemma_pow2_pos;
use vstd::arithmetic::power2::lemma_pow2_unfold;
use vstd::arithmetic::power2::pow2;
use vstd::prelude::*;

verus! {

/// `bumpalo::Bump`: memory that is handed out piece by piece, and freed as a whole.
#[verifier::external_type_specification]
#[verifier::external_body]
pub struct ExBump<const MIN_ALIGN: usize>(bumpalo::Bump<MIN_ALIGN>);

/// The pieces of memory that a `Bump` has handed out, in order: the address and the size of each.
pub uninterp spec fn handed_out(bump: Bump) -> Seq<(nat, nat)>;

/// `bumpalo::Bump::new`: nothing is handed out yet.
pub assume_specification[ Bump::<1>::new ]() -> (bump: Bump<1>)
    ensures
        handed_out(bump) == Seq::<(nat, nat)>::empty(),
;

/// Whether two pieces of memory have no byte in common.
pub open spec fn apart(a: (nat, nat), b: (nat, nat)) -> bool {
    a.0 + a.1 <= b.0 || b.0 + b.1 <= a.0
}

/// Whether no two of some pieces of memory have a byte in common.
pub open spec fn all_apart(regions: Seq<(nat, nat)>) -> bool {
    forall|i: int, j: int| 0 <= i < j < regions.len() ==> apart(#[trigger] regions[i], #[trigger] regions[j])
}

/// Whether a size and an alignment describe a piece of memory: the alignment is a power of two, and
/// the size, rounded up to a multiple of it, is no more than `isize::MAX`.
pub open spec fn is_layout(size: usize, align: usize) -> bool {
    &&& align > 0
    &&& align & (align - 1) as usize == 0
    &&& size + (align - 1) <= isize::MAX
}

/// `bumpalo::Bump::alloc_layout`, and the address of the pointer that it returns.
///
/// Claims that the piece is aligned as asked for, that it ends within the address space, that it has
/// no byte in common with a piece handed out before, and that those stay as they were.
///
/// Unsaid: which address it is, and that `alloc_layout` panics where the machine has no memory left. That
/// the bytes can be read and written, and keep what was written, for as long as the `Bump` lives, is a
/// property of the pointer, and the address does not carry it.
#[verifier::external_body]
fn bump_alloc(bump: &mut Bump, size: usize, align: usize) -> (r: usize)
    requires
        is_layout(size, align),
    ensures
        r > 0,
        r % align == 0,
        r + size <= usize::MAX,
        handed_out(*final(bump)) == handed_out(*old(bump)).push((r as nat, size as nat)),
        forall|i: int|
            0 <= i < handed_out(*old(bump)).len() ==> apart(
                #[trigger] handed_out(*old(bump))[i],
                (r as nat, size as nat),
            ),
{
    let layout = std::alloc::Layout::from_size_align(size, align).unwrap();
    bump.alloc_layout(layout).as_ptr() as usize
}

/// The size and the alignment of a piece of memory.
#[derive(Clone, Copy, Debug, PartialEq, Eq, Structural)]
pub struct Layout {
    size: usize,
    align: usize,
}

impl Layout {
    #[verifier::type_invariant]
    spec fn well_formed(self) -> bool {
        is_layout(self.size, self.align)
    }

    /// The size.
    pub closed spec fn size(self) -> usize {
        self.size
    }

    /// The alignment.
    pub closed spec fn align(self) -> usize {
        self.align
    }

    /// The layout of a given size and alignment, if they describe a piece of memory.
    pub fn from_size_align(size: usize, align: usize) -> (r: Option<Layout>)
        ensures
            match r {
                Some(layout) => is_layout(size, align) && layout.size() == size && layout.align() == align,
                None => !is_layout(size, align),
            },
    {
        let max: usize = isize::MAX as usize;
        if align > 0 && align & (align - 1) == 0 && align - 1 <= max && size <= max - (align - 1) {
            Some(Layout { size, align })
        } else {
            None
        }
    }
}

/// Pieces of memory that are apart have no byte in common. Those that have none, and are not empty, are apart.
pub proof fn law_apart_is_no_byte_in_common(a: (nat, nat), b: (nat, nat), byte: nat)
    ensures
        apart(a, b) ==> !(a.0 <= byte < a.0 + a.1 && b.0 <= byte < b.0 + b.1),
        a.1 > 0 && b.1 > 0 && !apart(a, b) ==> {
            let start = if a.0 <= b.0 {
                b.0
            } else {
                a.0
            };
            a.0 <= start < a.0 + a.1 && b.0 <= start < b.0 + b.1
        },
{
}

/// The bits of a number tell whether it is a power of two.
proof fn lemma_bits_of_a_power(a: usize)
    requires
        a > 0,
    ensures
        a & (a - 1) as usize == 0 <==> is_pow2(a as int),
    decreases a,
{
    reveal(is_pow2);
    if a > 1 {
        let half: usize = a / 2;
        if a % 2 == 0 {
            lemma_bits_of_a_power(half);
            assert(a & ((a - 1) as usize) == 0 <==> half & ((half - 1) as usize) == 0) by (bit_vector)
                requires
                    a > 1,
                    a % 2 == 0,
                    half == a / 2,
            ;
        } else {
            assert(a & ((a - 1) as usize) != 0) by (bit_vector)
                requires
                    a > 1,
                    a % 2 == 1,
            ;
        }
    } else {
        assert(1usize & 0usize == 0) by (bit_vector);
    }
}

/// A power of two divides a larger one.
proof fn lemma_powers_divide(a: int, e: nat)
    requires
        is_pow2(a),
        0 < a <= pow2(e),
    ensures
        pow2(e) as int % a == 0,
    decreases e,
{
    reveal(is_pow2);
    if a > 1 {
        lemma2_to64();
        lemma_pow2_unfold(e);
        let half = a / 2;
        lemma_powers_divide(half, (e - 1) as nat);
        let q = pow2((e - 1) as nat) as int / half;
        lemma_fundamental_div_mod(pow2((e - 1) as nat) as int, half);
        assert(pow2(e) as int == a * q) by (nonlinear_arith)
            requires
                pow2(e) as int == 2 * pow2((e - 1) as nat),
                pow2((e - 1) as nat) as int == half * q,
                a == 2 * half,
        ;
        lemma_mod_multiples_basic(q, a);
        assert(q * a == a * q) by (nonlinear_arith);
    }
}

/// A power of two that is larger than another is at least twice as large.
proof fn lemma_next_power(a: int, e: nat)
    requires
        is_pow2(a),
        a > pow2(e),
    ensures
        a >= 2 * pow2(e),
    decreases e,
{
    reveal(is_pow2);
    lemma2_to64();
    if e > 0 {
        lemma_pow2_unfold(e);
        lemma_pow2_pos((e - 1) as nat);
        lemma_next_power(a / 2, (e - 1) as nat);
    }
}

/// A size and an alignment describe a piece of memory just where `std` takes them for a layout: the alignment is
/// a power of two, and the size is no more than the largest multiple of it that is no more than `isize::MAX`.
pub proof fn law_layouts_are_those_of_std(size: usize, align: usize)
    ensures
        is_layout(size, align) <==> align > 0 && is_pow2(align as int) && size <= isize::MAX as int - isize::MAX as int
            % align as int,
{
    if align > 0 {
        lemma_bits_of_a_power(align);
        if is_pow2(align as int) {
            lemma2_to64();
            lemma2_to64_rest();
            let most = isize::MAX as int + 1;
            let e: nat = if usize::BITS == 32 {
                31
            } else {
                63
            };
            assert(most == pow2(e));
            if align <= most {
                lemma_powers_divide(align as int, e);
                lemma_fundamental_div_mod(most, align as int);
                let q = most / align as int;
                assert(isize::MAX as int % align as int == align - 1) by {
                    assert((q - 1) * align + (align - 1) == q * align - 1) by (nonlinear_arith);
                    assert(q * align == align * q) by (nonlinear_arith);
                    lemma_fundamental_div_mod_converse(isize::MAX as int, align as int, q - 1, align - 1);
                }
            } else {
                lemma_next_power(align as int, e);
            }
        }
    }
}

/// Memory that is handed out piece by piece, and freed as a whole.
pub struct Area {
    bump: Bump,
}

impl View for Area {
    type V = Seq<(nat, nat)>;

    /// The pieces of memory that were handed out, in order: the address and the size of each.
    closed spec fn view(&self) -> Seq<(nat, nat)> {
        handed_out(self.bump)
    }
}

impl Area {
    /// An area of which nothing is handed out yet.
    pub fn new() -> (r: Area)
        ensures
            r@ == Seq::<(nat, nat)>::empty(),
            all_apart(r@),
    {
        Area { bump: Bump::new() }
    }

    /// Hands out a piece of memory, and tells its address. No one else has it, or had it before. What
    /// was handed out before stays where it was.
    pub fn alloc_layout(&mut self, layout: Layout) -> (r: usize)
        ensures
            r > 0,
            r % layout.align() == 0,
            r + layout.size() <= usize::MAX,
            final(self)@ == old(self)@.push((r as nat, layout.size() as nat)),
            forall|i: int|
                0 <= i < old(self)@.len() ==> apart(
                    #[trigger] old(self)@[i],
                    (r as nat, layout.size() as nat),
                ),
            all_apart(old(self)@) ==> all_apart(final(self)@),
    {
        proof {
            use_type_invariant(&layout);
        }
        bump_alloc(&mut self.bump, layout.size, layout.align)
    }
}

} // verus!
