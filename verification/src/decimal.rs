//! Numbers as text.

use vstd::prelude::*;
use vstd::string::StringExecFns;

verus! {

/// The digit for a number below ten.
pub open spec fn digit(n: int) -> char {
    if n == 0 {
        '0'
    } else if n == 1 {
        '1'
    } else if n == 2 {
        '2'
    } else if n == 3 {
        '3'
    } else if n == 4 {
        '4'
    } else if n == 5 {
        '5'
    } else if n == 6 {
        '6'
    } else if n == 7 {
        '7'
    } else if n == 8 {
        '8'
    } else {
        '9'
    }
}

/// A number in decimal, without leading zeros.
pub open spec fn decimal(n: nat) -> Seq<char>
    decreases n,
{
    if n < 10 {
        seq![digit(n as int)]
    } else {
        decimal(n / 10).push(digit((n % 10) as int))
    }
}

/// The text of a digit.
fn digit_text(n: u32) -> (r: &'static str)
    requires
        n < 10,
    ensures
        r@ == seq![digit(n as int)],
{
    proof {
        reveal_strlit("0");
        reveal_strlit("1");
        reveal_strlit("2");
        reveal_strlit("3");
        reveal_strlit("4");
        reveal_strlit("5");
        reveal_strlit("6");
        reveal_strlit("7");
        reveal_strlit("8");
        reveal_strlit("9");
    }
    match n {
        0 => "0",
        1 => "1",
        2 => "2",
        3 => "3",
        4 => "4",
        5 => "5",
        6 => "6",
        7 => "7",
        8 => "8",
        _ => "9",
    }
}

/// Appends a number in decimal.
pub fn append_decimal(text: &mut String, n: u32)
    ensures
        final(text)@ == old(text)@ + decimal(n as nat),
    decreases n,
{
    if n >= 10 {
        append_decimal(text, n / 10);
    }
    text.append(digit_text(n % 10));
    assert(text@ =~= old(text)@ + decimal(n as nat));
}

/// A number in decimal reads back as the number, the highest digit first, and starts with a zero only if it is
/// zero.
///
/// What comes out are the numbers that the first digits read as.
pub proof fn law_decimal_reads_back(n: nat) -> (read: Seq<int>)
    ensures
        read.len() == decimal(n).len() + 1,
        read[0] == 0,
        forall|i: int|
            0 <= i < decimal(n).len() ==> '0' <= decimal(n)[i] <= '9' && #[trigger] read[i + 1] == 10 * read[i]
                + decimal(n)[i] as int - '0' as int,
        read.last() == n,
        decimal(n)[0] == '0' ==> n == 0 && decimal(n).len() == 1,
    decreases n,
{
    if n < 10 {
        let read = seq![0, n as int];
        assert forall|i: int| 0 <= i < decimal(n).len() implies '0' <= decimal(n)[i] <= '9' && #[trigger] read[i + 1]
            == 10 * read[i] + decimal(n)[i] as int - '0' as int by {
            assert(i == 0);
        }
        read
    } else {
        let front = law_decimal_reads_back(n / 10);
        let read = front.push(n as int);
        lemma_decimal_has_digits(n / 10);
        assert forall|i: int| 0 <= i < decimal(n).len() implies '0' <= decimal(n)[i] <= '9' && #[trigger] read[i + 1]
            == 10 * read[i] + decimal(n)[i] as int - '0' as int by {
            if i < decimal(n / 10).len() {
                assert(front[i + 1] == 10 * front[i] + decimal(n / 10)[i] as int - '0' as int);
            }
        }
        read
    }
}

/// A number in decimal is made of digits, and is not empty.
pub proof fn lemma_decimal_has_digits(n: nat)
    ensures
        decimal(n).len() > 0,
        forall|i: int| 0 <= i < decimal(n).len() ==> '0' <= #[trigger] decimal(n)[i] <= '9',
    decreases n,
{
    if n >= 10 {
        lemma_decimal_has_digits(n / 10);
    }
}

/// Two numbers with the same decimal are the same number.
pub proof fn lemma_decimal_is_injective(m: nat, n: nat)
    requires
        decimal(m) == decimal(n),
    ensures
        m == n,
    decreases m,
{
    lemma_decimal_has_digits(m / 10);
    lemma_decimal_has_digits(n / 10);
    assert(decimal(m).last() == digit((m % 10) as int));
    assert(decimal(n).last() == digit((n % 10) as int));
    if m >= 10 && n >= 10 {
        assert(decimal(m).drop_last() =~= decimal(m / 10));
        assert(decimal(n).drop_last() =~= decimal(n / 10));
        lemma_decimal_is_injective(m / 10, n / 10);
    }
}

} // verus!
