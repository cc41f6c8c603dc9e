//! Exact decimal rendering of the integer quantities the report shows.
//!
//! All second-valued quantities are carried as integer nanoseconds, and
//! ratios as integers scaled by a power of ten, so every number the report
//! prints is a rounded integer rendered here digit by digit.

use vstd::prelude::*;
use vstd::string::StringExecFns;

verus! {

/// View of the single decimal digit `d` (`d < 10`).
pub open spec fn digit_chars(d: nat) -> Seq<char> {
    if d == 0 {
        "0"@
    } else if d == 1 {
        "1"@
    } else if d == 2 {
        "2"@
    } else if d == 3 {
        "3"@
    } else if d == 4 {
        "4"@
    } else if d == 5 {
        "5"@
    } else if d == 6 {
        "6"@
    } else if d == 7 {
        "7"@
    } else if d == 8 {
        "8"@
    } else {
        "9"@
    }
}

/// Decimal representation of `n`, most significant digit first, no sign,
/// no leading zeros (except for `n == 0` itself).
pub open spec fn dec_chars(n: nat) -> Seq<char>
    decreases n,
{
    if n < 10 {
        digit_chars(n)
    } else {
        dec_chars(n / 10) + digit_chars(n % 10)
    }
}

/// The `w` least significant decimal digits of `n`, zero padded to width `w`.
pub open spec fn dec_pad_chars(n: nat, w: nat) -> Seq<char>
    decreases w,
{
    if w == 0 {
        Seq::empty()
    } else {
        dec_pad_chars(n / 10, (w - 1) as nat) + digit_chars(n % 10)
    }
}

/// `units` in units of 1/10000, as a fixed-point decimal with 4 fraction digits.
pub open spec fn fixed4_chars(units: nat) -> Seq<char> {
    dec_chars(units / 10000) + "."@ + dec_pad_chars(units % 10000, 4)
}

/// `units` in units of 1/1000, as a fixed-point decimal with 3 fraction digits.
pub open spec fn fixed3_chars(units: nat) -> Seq<char> {
    dec_chars(units / 1000) + "."@ + dec_pad_chars(units % 1000, 3)
}

/// `num / den` rounded to the nearest integer, halves rounding up.
pub open spec fn round_div(num: nat, den: nat) -> nat
    recommends
        den > 0,
{
    (num + den / 2) / den
}

/// Nanoseconds as seconds with 4 fraction digits, rounded to the nearest.
pub open spec fn secs4_chars(ns: nat) -> Seq<char> {
    fixed4_chars(round_div(ns, 100000))
}

/// Nanoseconds as seconds with 3 fraction digits, rounded to the nearest.
pub open spec fn secs3_chars(ns: nat) -> Seq<char> {
    fixed3_chars(round_div(ns, 1000000))
}

fn digit_str(d: u8) -> (r: &'static str)
    requires
        d < 10,
    ensures
        r@ == digit_chars(d as nat),
{
    match d {
        0 => "0",
        1 => "1",
        2 => "2",
        3 => "3",
        4 => "4",
        5 => "5",
        6 => "6",
        7 => "7",
        8 => "8",
        _ => "9",
    }
}

/// Renders `n` in decimal.
pub fn dec_string(n: u128) -> (r: String)
    ensures
        r@ == dec_chars(n as nat),
    decreases n,
{
    if n < 10 {
        digit_str(n as u8).to_owned()
    } else {
        let mut s = dec_string(n / 10);
        s.append(digit_str((n % 10) as u8));
        s
    }
}

/// Renders the `w` least significant digits of `n`, zero padded.
pub fn dec_pad_string(n: u128, w: usize) -> (r: String)
    ensures
        r@ == dec_pad_chars(n as nat, w as nat),
    decreases w,
{
    if w == 0 {
        String::new()
    } else {
        let mut s = dec_pad_string(n / 10, w - 1);
        s.append(digit_str((n % 10) as u8));
        s
    }
}

/// Renders `units` (a value scaled by 10000) with 4 fraction digits.
pub fn fixed4_string(units: u128) -> (r: String)
    ensures
        r@ == fixed4_chars(units as nat),
{
    let mut s = dec_string(units / 10000);
    s.append(".");
    let frac = dec_pad_string(units % 10000, 4);
    s.append(frac.as_str());
    s
}

/// Renders `units` (a value scaled by 1000) with 3 fraction digits.
pub fn fixed3_string(units: u128) -> (r: String)
    ensures
        r@ == fixed3_chars(units as nat),
{
    let mut s = dec_string(units / 1000);
    s.append(".");
    let frac = dec_pad_string(units % 1000, 3);
    s.append(frac.as_str());
    s
}

/// `num / den` rounded to the nearest integer, halves rounding up.
pub fn round_div_u128(num: u128, den: u128) -> (r: u128)
    requires
        den > 0,
        num + den / 2 <= u128::MAX,
    ensures
        r as nat == round_div(num as nat, den as nat),
{
    (num + den / 2) / den
}

/// Renders nanoseconds as seconds with 4 fraction digits.
pub fn secs4_string(ns: u64) -> (r: String)
    ensures
        r@ == secs4_chars(ns as nat),
{
    let units = round_div_u128(ns as u128, 100000);
    fixed4_string(units)
}

/// Renders nanoseconds as seconds with 3 fraction digits.
pub fn secs3_string(ns: u64) -> (r: String)
    ensures
        r@ == secs3_chars(ns as nat),
{
    let units = round_div_u128(ns as u128, 1000000);
    fixed3_string(units)
}

} // verus!
