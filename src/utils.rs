use crate::text::{decimal, decimal_text, digit_char, digit_text, repeat_text, repeated};
use vstd::arithmetic::div_mod::{lemma_fundamental_div_mod, lemma_fundamental_div_mod_converse};
use vstd::prelude::*;

verus! {

/// Relies on `term_size::dimensions`: the width and height of the terminal, where
/// one of the standard streams is a terminal. Nothing is promised of the value,
/// which depends on the terminal the process runs in.
pub assume_specification[ term_size::dimensions ]() -> Option<(usize, usize)>;

/// The width of a decorative line: the terminal's where it is known, else sixty columns.
pub open spec fn line_width(dims: Option<(usize, usize)>) -> nat {
    match dims {
        Some((w, _)) => w as nat,
        None => 60,
    }
}

/// A decorative line of `symbol`, as wide as `dims` says.
pub fn decorator_for_dimensions(symbol: &str, dims: Option<(usize, usize)>) -> (r: String)
    ensures
        r@ == repeated(symbol@, line_width(dims)),
{
    let width: usize = match dims {
        Some((w, _)) => w,
        None => 60,
    };
    repeat_text(symbol, width)
}

/// A decorative line of `symbol` as wide as the terminal, or sixty columns where
/// the width is unknown.
pub fn decorator(symbol: &str) -> (r: String)
    ensures
        exists|dims: Option<(usize, usize)>| r@ == repeated(symbol@, line_width(dims)),
{
    let dims = term_size::dimensions();
    decorator_for_dimensions(symbol, dims)
}

/// How many times a size is divided by 1024 before it is shown: up to GB.
pub open spec fn unit_index(bytes: nat) -> nat {
    if bytes < 1024 {
        0
    } else if bytes < 1048576 {
        1
    } else if bytes < 1073741824 {
        2
    } else {
        3
    }
}

/// 1024 to the power `k`, for the units in use.
pub open spec fn unit_divisor(k: nat) -> nat {
    if k == 0 {
        1
    } else if k == 1 {
        1024
    } else if k == 2 {
        1048576
    } else {
        1073741824
    }
}

/// The name of a unit.
pub open spec fn unit_name(k: nat) -> Seq<char> {
    if k == 0 {
        seq!['B']
    } else if k == 1 {
        seq!['K', 'B']
    } else if k == 2 {
        seq!['M', 'B']
    } else {
        seq!['G', 'B']
    }
}

/// `bytes` in its unit, as a whole number of tenths: rounded to the nearest
/// tenth, and to the even tenth on a tie.
pub open spec fn size_tenths(bytes: nat) -> nat {
    let d = unit_divisor(unit_index(bytes));
    let q = (bytes * 10) / d;
    let r = (bytes * 10) % d;
    if 2 * r > d || (2 * r == d && q % 2 == 1) {
        q + 1
    } else {
        q
    }
}

/// A size as people read it: one decimal and a unit, such as `1.5 KB`.
pub open spec fn size_text(bytes: nat) -> Seq<char> {
    let t = size_tenths(bytes);
    decimal(t / 10) + seq!['.', digit_char(t % 10), ' '] + unit_name(unit_index(bytes))
}

/// Shows a size in bytes with one decimal in B, KB, MB or GB.
pub fn format_file_size(bytes: u64) -> (r: String)
    ensures
        r@ == size_text(bytes as nat),
{
    proof {
        reveal_strlit("B");
        reveal_strlit("KB");
        reveal_strlit("MB");
        reveal_strlit("GB");
        reveal_strlit(".");
        reveal_strlit(" ");
    }
    let (d, unit): (u64, &str) = if bytes < 1024 {
        (1, "B")
    } else if bytes < 1048576 {
        (1024, "KB")
    } else if bytes < 1073741824 {
        (1048576, "MB")
    } else {
        (1073741824, "GB")
    };
    assert(d == unit_divisor(unit_index(bytes as nat)));
    assert(unit@ == unit_name(unit_index(bytes as nat)));
    let whole = bytes / d;
    let part = bytes % d;
    let scaled = part * 10;
    let digit = scaled / d;
    let rem = scaled % d;
    proof {
        lemma_fundamental_div_mod(bytes as int, d as int);
        lemma_fundamental_div_mod(scaled as int, d as int);
        assert(bytes * 10 == (whole * 10 + digit) * d + rem) by (nonlinear_arith)
            requires
                bytes == d * whole + part,
                scaled == part * 10,
                scaled == d * digit + rem,
        ;
        lemma_fundamental_div_mod_converse(
            bytes * 10,
            d as int,
            whole * 10 + digit,
            rem as int,
        );
        assert(digit < 10) by (nonlinear_arith)
            requires
                part < d,
                scaled == part * 10,
                digit == scaled / d,
                d > 0,
        ;
        if d == 1 {
            assert(rem == 0);
        } else {
            assert(whole <= bytes / 1024) by (nonlinear_arith)
                requires
                    whole == bytes / d,
                    d >= 1024,
            ;
        }
    }
    let ghost q = whole * 10 + digit;
    let round_up = 2 * rem > d || (2 * rem == d && digit % 2 == 1);
    assert(round_up == (2 * rem > d || (2 * rem == d && q % 2 == 1)));
    let (shown_whole, shown_digit): (u64, u64) = if round_up {
        if digit == 9 {
            (whole + 1, 0)
        } else {
            (whole, digit + 1)
        }
    } else {
        (whole, digit)
    };
    proof {
        let t = size_tenths(bytes as nat);
        lemma_fundamental_div_mod_converse(t as int, 10, shown_whole as int, shown_digit as int);
    }
    let mut r = decimal_text(shown_whole);
    r.append(".");
    r.append(digit_text(shown_digit));
    r.append(" ");
    r.append(unit);
    r
}

} // verus!
