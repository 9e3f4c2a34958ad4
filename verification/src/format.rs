//! Human-readable formatting of byte counts.

use vstd::prelude::*;
use vstd::string::StringExecFns;

verus! {

/// The decimal digit character for a value below ten.
pub open spec fn dec_digit(d: nat) -> char
    recommends
        d < 10,
{
    if d == 0 {
        '0'
    } else if d == 1 {
        '1'
    } else if d == 2 {
        '2'
    } else if d == 3 {
        '3'
    } else if d == 4 {
        '4'
    } else if d == 5 {
        '5'
    } else if d == 6 {
        '6'
    } else if d == 7 {
        '7'
    } else if d == 8 {
        '8'
    } else {
        '9'
    }
}

/// The decimal representation of a number, most significant digit first.
pub open spec fn dec_rep(n: nat) -> Seq<char>
    decreases n,
{
    if n < 10 {
        seq![dec_digit(n)]
    } else {
        dec_rep(n / 10).push(dec_digit(n % 10))
    }
}

/// A number below one hundred written with exactly two decimal digits.
pub open spec fn two_dec_rep(n: nat) -> Seq<char>
    recommends
        n < 100,
{
    seq![dec_digit(n / 10), dec_digit(n % 10)]
}

/// One decimal digit as a string slice.
fn digit_str(d: u8) -> (r: &'static str)
    requires
        d < 10,
    ensures
        r@ == seq![dec_digit(d as nat)],
{
    let r = match d {
        0 => "0",
        1 => "1",
        2 => "2",
        3 => "3",
        4 => "4",
        5 => "5",
        6 => "6",
        7 => "7",
        8 => "8",
        _ => "9",
    };
    proof {
        reveal_strlit("0");
        reveal_strlit("1");
        reveal_strlit("2");
        reveal_strlit("3");
        reveal_strlit("4");
        reveal_strlit("5");
        reveal_strlit("6");
        reveal_strlit("7");
        reveal_strlit("8");
        reveal_strlit("9");
        assert(r@ =~= seq![dec_digit(d as nat)]);
    }
    r
}

/// Writes a number in decimal.
pub fn u64_string(n: u64) -> (r: String)
    ensures
        r@ == dec_rep(n as nat),
    decreases n,
{
    if n < 10 {
        digit_str(n as u8).to_owned()
    } else {
        let mut s = u64_string(n / 10);
        s.append(digit_str((n % 10) as u8));
        proof {
            assert(dec_rep((n / 10) as nat) + seq![dec_digit((n % 10) as nat)] =~= dec_rep(
                n as nat,
            ));
        }
        s
    }
}

/// Appends a number below one hundred with exactly two decimal digits.
fn append_two_digits(s: &mut String, n: u64)
    requires
        n < 100,
    ensures
        final(s)@ == old(s)@ + two_dec_rep(n as nat),
{
    s.append(digit_str((n / 10) as u8));
    s.append(digit_str((n % 10) as u8));
    proof {
        assert(old(s)@ + seq![dec_digit((n / 10) as nat)] + seq![dec_digit((n % 10) as nat)]
            =~= old(s)@ + two_dec_rep(n as nat));
    }
}

/// A byte count scaled down by `unit` and written with two decimals,
/// rounded toward zero.
pub open spec fn scaled_rep(size: nat, unit: nat) -> Seq<char>
    recommends
        unit >= 1,
{
    let q = size * 100 / unit;
    dec_rep(q / 100) + seq!['.'] + two_dec_rep(q % 100)
}

/// Writes a byte count scaled down by `unit` with two decimals.
fn scaled_string(size: usize, unit: u64, suffix: &str) -> (r: String)
    requires
        unit >= 100,
    ensures
        r@ == scaled_rep(size as nat, unit as nat) + suffix@,
{
    let q128 = (size as u128) * 100 / (unit as u128);
    proof {
        vstd::arithmetic::div_mod::lemma_div_is_ordered_by_denominator(
            size as int * 100,
            100,
            unit as int,
        );
        vstd::arithmetic::div_mod::lemma_div_multiples_vanish(size as int, 100);
        assert(100 * size as int == size as int * 100);
    }
    let q = q128 as u64;
    let mut s = u64_string(q / 100);
    s.append(".");
    proof {
        reveal_strlit(".");
        assert("."@ =~= seq!['.']);
    }
    append_two_digits(&mut s, q % 100);
    s.append(suffix);
    proof {
        assert(dec_rep((q / 100) as nat) + seq!['.'] + two_dec_rep((q % 100) as nat) + suffix@
            =~= scaled_rep(size as nat, unit as nat) + suffix@);
    }
    s
}

/// The human-readable form of a byte count: an exact count below 1 KiB, and
/// a two-decimal multiple of the largest unit below it otherwise, rounded
/// toward zero.
pub open spec fn format_bytes_spec(size: nat) -> Seq<char> {
    if size == 1 {
        "1 byte"@
    } else if size < 0x400 {
        dec_rep(size) + " bytes"@
    } else if size < 0x100000 {
        scaled_rep(size, 0x400) + " KiB"@
    } else if size < 0x40000000 {
        scaled_rep(size, 0x100000) + " MiB"@
    } else {
        scaled_rep(size, 0x40000000) + " GiB"@
    }
}

/// Stringifies a number representing a number of bytes in human-readable
/// form.
pub fn format_bytes(size: usize) -> (r: String)
    ensures
        r@ == format_bytes_spec(size as nat),
{
    if size == 1 {
        "1 byte".to_owned()
    } else if size < 0x400 {
        let mut s = u64_string(size as u64);
        s.append(" bytes");
        s
    } else if size < 0x100000 {
        scaled_string(size, 0x400, " KiB")
    } else if size < 0x40000000 {
        scaled_string(size, 0x100000, " MiB")
    } else {
        scaled_string(size, 0x40000000, " GiB")
    }
}

/// The coarse human-readable form of a byte count: a whole number of the
/// largest unit below it.
pub open spec fn format_size_spec(size: nat) -> Seq<char> {
    if size < 0x400 {
        dec_rep(size) + " bytes"@
    } else if size < 0x100000 {
        dec_rep(size / 0x400) + " KB"@
    } else if size < 0x40000000 {
        dec_rep(size / 0x100000) + " MB"@
    } else {
        dec_rep(size / 0x40000000) + " GB"@
    }
}

/// Formats a size in bytes to be human-readable.
pub fn format_size(size: u64) -> (r: String)
    ensures
        r@ == format_size_spec(size as nat),
{
    if size < 0x400 {
        let mut s = u64_string(size);
        s.append(" bytes");
        s
    } else if size < 0x100000 {
        let mut s = u64_string(size / 0x400);
        s.append(" KB");
        s
    } else if size < 0x40000000 {
        let mut s = u64_string(size / 0x100000);
        s.append(" MB");
        s
    } else {
        let mut s = u64_string(size / 0x40000000);
        s.append(" GB");
        s
    }
}

} // verus!
