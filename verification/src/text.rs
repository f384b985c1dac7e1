//! Decimal and hexadecimal text of integers, as `std::fmt` writes them.

use vstd::prelude::*;
use vstd::string::StringExecFns;

verus! {

/// The character of digit `d` (0 to 15), in lowercase for the letters.
pub open spec fn digit_char(d: int) -> char {
    seq!['0', '1', '2', '3', '4', '5', '6', '7', '8', '9', 'a', 'b', 'c', 'd', 'e', 'f'][d]
}

/// The decimal digits of `n`, without leading zeros ("0" for zero).
pub open spec fn dec_text(n: nat) -> Seq<char>
    decreases n,
{
    if n < 10 {
        seq![digit_char(n as int)]
    } else {
        dec_text(n / 10) + seq![digit_char((n % 10) as int)]
    }
}

/// The last `k` hexadecimal digits of `n`, zero-padded, lowercase.
pub open spec fn hex_text(n: nat, k: nat) -> Seq<char>
    decreases k,
{
    if k == 0 {
        Seq::empty()
    } else {
        hex_text(n / 16, (k - 1) as nat) + seq![digit_char((n % 16) as int)]
    }
}

/// Appends the character of digit `d`.
fn append_digit(out: &mut String, d: u64)
    requires
        d < 16,
    ensures
        final(out)@ == old(out)@ + seq![digit_char(d as int)],
{
    if d == 0 {
        proof { reveal_strlit("0"); }
        out.append("0");
    } else if d == 1 {
        proof { reveal_strlit("1"); }
        out.append("1");
    } else if d == 2 {
        proof { reveal_strlit("2"); }
        out.append("2");
    } else if d == 3 {
        proof { reveal_strlit("3"); }
        out.append("3");
    } else if d == 4 {
        proof { reveal_strlit("4"); }
        out.append("4");
    } else if d == 5 {
        proof { reveal_strlit("5"); }
        out.append("5");
    } else if d == 6 {
        proof { reveal_strlit("6"); }
        out.append("6");
    } else if d == 7 {
        proof { reveal_strlit("7"); }
        out.append("7");
    } else if d == 8 {
        proof { reveal_strlit("8"); }
        out.append("8");
    } else if d == 9 {
        proof { reveal_strlit("9"); }
        out.append("9");
    } else if d == 10 {
        proof { reveal_strlit("a"); }
        out.append("a");
    } else if d == 11 {
        proof { reveal_strlit("b"); }
        out.append("b");
    } else if d == 12 {
        proof { reveal_strlit("c"); }
        out.append("c");
    } else if d == 13 {
        proof { reveal_strlit("d"); }
        out.append("d");
    } else if d == 14 {
        proof { reveal_strlit("e"); }
        out.append("e");
    } else {
        proof { reveal_strlit("f"); }
        out.append("f");
    }
}

/// Appends the decimal digits of `n` (what `{}` writes).
pub fn append_decimal(out: &mut String, n: u64)
    ensures
        final(out)@ == old(out)@ + dec_text(n as nat),
    decreases n,
{
    if n >= 10 {
        append_decimal(out, n / 10);
    }
    append_digit(out, n % 10);
    assert(out@ =~= old(out)@ + dec_text(n as nat));
}

/// Appends the last `k` hexadecimal digits of `n`, zero-padded, lowercase
/// (what `{:0k x}` writes for a value below `16^k`).
pub fn append_hex(out: &mut String, n: u64, k: u32)
    ensures
        final(out)@ == old(out)@ + hex_text(n as nat, k as nat),
    decreases k,
{
    if k > 0 {
        append_hex(out, n / 16, k - 1);
        append_digit(out, n % 16);
        assert(out@ =~= old(out)@ + hex_text(n as nat, k as nat));
    } else {
        assert(out@ =~= old(out)@ + hex_text(n as nat, k as nat));
    }
}

} // verus!
