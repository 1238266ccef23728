//! Verified building blocks for the human-readable labels the monitor
//! produces: decimal rendering of counters and status codes, and a two-digit
//! padded form for clock fields.

use vstd::prelude::*;

verus! {

/// The decimal digit character for a value in `0..10`.
pub open spec fn digit_char(d: int) -> char {
    if d == 0 {
        '0'
    } else if d == 1 {
        '1'
    } else if d == 2 {
        '2'
    } else if d == 3 {
        '3'
    } else if d == 4 {
        '4'
    } else if d == 5 {
        '5'
    } else if d == 6 {
        '6'
    } else if d == 7 {
        '7'
    } else if d == 8 {
        '8'
    } else {
        '9'
    }
}

/// The usual decimal rendering of a non-negative integer, most significant
/// digit first, with no leading zeros (`0` itself is rendered as "0").
pub open spec fn dec_of(n: int) -> Seq<char>
    decreases n,
{
    if n < 10 {
        seq![digit_char(n)]
    } else {
        dec_of(n / 10) + seq![digit_char(n % 10)]
    }
}

/// The decimal rendering padded to at least two digits, as in a clock field.
pub open spec fn pad2_of(n: int) -> Seq<char> {
    if n < 10 {
        seq![digit_char(0)] + dec_of(n)
    } else {
        dec_of(n)
    }
}

fn append_digit(s: &mut String, d: u64)
    requires
        d < 10,
    ensures
        final(s)@ == old(s)@ + seq![digit_char(d as int)],
{
    proof {
        reveal_strlit("0");
        reveal_strlit("1");
        reveal_strlit("2");
        reveal_strlit("3");
        reveal_strlit("4");
        reveal_strlit("5");
        reveal_strlit("6");
        reveal_strlit("7");
        reveal_strlit("8");
        reveal_strlit("9");
    }
    if d == 0 {
        s.append("0");
        assert(("0")@ =~= seq![digit_char(d as int)]);
    } else if d == 1 {
        s.append("1");
        assert(("1")@ =~= seq![digit_char(d as int)]);
    } else if d == 2 {
        s.append("2");
        assert(("2")@ =~= seq![digit_char(d as int)]);
    } else if d == 3 {
        s.append("3");
        assert(("3")@ =~= seq![digit_char(d as int)]);
    } else if d == 4 {
        s.append("4");
        assert(("4")@ =~= seq![digit_char(d as int)]);
    } else if d == 5 {
        s.append("5");
        assert(("5")@ =~= seq![digit_char(d as int)]);
    } else if d == 6 {
        s.append("6");
        assert(("6")@ =~= seq![digit_char(d as int)]);
    } else if d == 7 {
        s.append("7");
        assert(("7")@ =~= seq![digit_char(d as int)]);
    } else if d == 8 {
        s.append("8");
        assert(("8")@ =~= seq![digit_char(d as int)]);
    } else {
        s.append("9");
        assert(("9")@ =~= seq![digit_char(d as int)]);
    }
}

/// Appends the decimal rendering of `n` to `s`.
pub fn append_dec(s: &mut String, n: u64)
    ensures
        final(s)@ == old(s)@ + dec_of(n as int),
    decreases n,
{
    if n < 10 {
        append_digit(s, n);
    } else {
        append_dec(s, n / 10);
        append_digit(s, n % 10);
        assert(old(s)@ + dec_of((n / 10) as int) + seq![digit_char((n % 10) as int)] =~= old(s)@
            + dec_of(n as int));
    }
}

/// Appends the decimal rendering of `n`, left-padded with '0' to two digits.
pub fn append_pad2(s: &mut String, n: u64)
    ensures
        final(s)@ == old(s)@ + pad2_of(n as int),
{
    if n < 10 {
        append_digit(s, 0);
        append_digit(s, n);
        assert(old(s)@ + seq![digit_char(0)] + seq![digit_char(n as int)] =~= old(s)@ + pad2_of(
            n as int,
        ));
    } else {
        append_dec(s, n);
    }
}

/// The decimal rendering of `n` as a fresh string.
pub fn dec_string(n: u64) -> (r: String)
    ensures
        r@ == dec_of(n as int),
{
    let mut s = String::new();
    append_dec(&mut s, n);
    assert(Seq::<char>::empty() + dec_of(n as int) =~= dec_of(n as int));
    s
}

} // verus!
