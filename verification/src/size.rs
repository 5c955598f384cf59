//! Sizes of files, for people to read.

use vstd::prelude::*;

use crate::text::{all_digits, decimal, decimal_text, digits_value, lemma_number_read_back};

verus! {

/// Bytes in a kilobyte.
pub const KB: u64 = 1024;

/// Bytes in a megabyte.
pub const MB: u64 = 1048576;

/// Bytes in a gigabyte.
pub const GB: u64 = 1073741824;

/// The first number that a double cannot tell from its neighbours: numbers below
/// it are kept exactly.
pub const EXACT_LIMIT: u64 = 9007199254740992;

/// `n / d` to the nearest whole number, and to the even one of two that are as
/// near.
pub open spec fn nearest_quotient(n: nat, d: nat) -> nat
    recommends
        d > 0,
{
    if 2 * (n % d) < d || (2 * (n % d) == d && (n / d) % 2 == 0) {
        n / d
    } else {
        n / d + 1
    }
}

/// The distance between the doubles around `n`.
pub open spec fn double_spacing(n: nat) -> nat
    decreases n,
{
    if n < EXACT_LIMIT {
        1
    } else {
        2 * double_spacing(n / 2)
    }
}

/// The double nearest to `n`.
pub open spec fn nearest_double(n: nat) -> nat {
    nearest_quotient(n, double_spacing(n)) * double_spacing(n)
}

/// A size in tenths of a unit: the double nearest to the number of bytes, divided
/// by the unit and rounded to a tenth.
pub open spec fn tenths(bytes: nat, unit: nat) -> nat {
    nearest_quotient(nearest_double(bytes) * 10, unit)
}

/// A number of tenths with a decimal point.
pub open spec fn tenths_text(t: nat) -> Seq<char> {
    decimal(t / 10) + "."@ + decimal(t % 10)
}

/// The size as it is shown: in the largest unit that it reaches, with one digit
/// after the point, or in bytes.
pub open spec fn size_text(bytes: nat) -> Seq<char> {
    if bytes >= GB {
        tenths_text(tenths(bytes, GB as nat)) + " GB"@
    } else if bytes >= MB {
        tenths_text(tenths(bytes, MB as nat)) + " MB"@
    } else if bytes >= KB {
        tenths_text(tenths(bytes, KB as nat)) + " KB"@
    } else {
        decimal(bytes) + " B"@
    }
}

fn round_quotient(n: u128, d: u128) -> (q: u128)
    requires
        0 < d <= 0xffff_ffff_ffff_ffff,
        n <= 0xffff_ffff_ffff_ffff_ffff_ffff,
    ensures
        q == nearest_quotient(n as nat, d as nat),
        q <= n / d + 1,
{
    let q: u128 = n / d;
    let r: u128 = n % d;
    assert(q <= n) by (nonlinear_arith)
        requires
            q == n / d,
            d > 0,
            n >= 0,
    ;
    if 2 * r < d || (2 * r == d && q % 2 == 0) {
        q
    } else {
        q + 1
    }
}

/// The double nearest to `n`.
fn to_double(n: u64) -> (value: u128)
    ensures
        value == nearest_double(n as nat),
        value <= 0x1_ffff_ffff_ffff_ffff,
{
    let mut rest: u64 = n;
    let mut spacing: u128 = 1;
    while rest >= EXACT_LIMIT
        invariant
            double_spacing(n as nat) == spacing * double_spacing(rest as nat),
            1 <= spacing,
            spacing == 1 || rest >= 1,
            spacing * rest <= n,
        decreases rest,
    {
        assert(double_spacing(rest as nat) == 2 * double_spacing(rest as nat / 2));
        assert(spacing * (2 * double_spacing(rest as nat / 2)) == (spacing * 2) * double_spacing(
            rest as nat / 2,
        )) by (nonlinear_arith);
        assert(spacing * 2 <= n && (spacing * 2) * (rest / 2) <= n) by (nonlinear_arith)
            requires
                spacing * rest <= n,
                rest >= 2,
                spacing >= 1,
        ;
        spacing = spacing * 2;
        rest = rest / 2;
    }
    assert(spacing * 1 == spacing) by (nonlinear_arith);
    assert(double_spacing(n as nat) == spacing);
    assert(spacing <= 0xffff_ffff_ffff_ffff) by (nonlinear_arith)
        requires
            spacing * rest <= n,
            n <= 0xffff_ffff_ffff_ffff,
            spacing == 1 || rest >= 1,
    ;
    let q: u128 = round_quotient(n as u128, spacing);
    proof {
        let whole = n as int / spacing as int;
        vstd::arithmetic::div_mod::lemma_fundamental_div_mod(n as int, spacing as int);
        assert(q * spacing <= n + spacing) by (nonlinear_arith)
            requires
                q <= whole + 1,
                spacing * whole <= n,
                spacing >= 1,
        ;
    }
    q * spacing
}

fn tenths_of(bytes: u64, unit: u64) -> (text: String)
    requires
        unit > 0,
    ensures
        text@ == tenths_text(tenths(bytes as nat, unit as nat)),
{
    let t: u128 = round_quotient(to_double(bytes) * 10, unit as u128);
    let mut text: String = decimal_text(t / 10);
    text.append(".");
    text.append(decimal_text(t % 10).as_str());
    text
}

/// The size as it is shown.
pub fn format_size(bytes: u64) -> (text: String)
    ensures
        text@ == size_text(bytes as nat),
{
    if bytes >= GB {
        let mut text: String = tenths_of(bytes, GB);
        text.append(" GB");
        text
    } else if bytes >= MB {
        let mut text: String = tenths_of(bytes, MB);
        text.append(" MB");
        text
    } else if bytes >= KB {
        let mut text: String = tenths_of(bytes, KB);
        text.append(" KB");
        text
    } else {
        let mut text: String = decimal_text(bytes as u128);
        text.append(" B");
        text
    }
}

proof fn lemma_exact(n: nat)
    requires
        n < EXACT_LIMIT,
    ensures
        nearest_double(n) == n,
{
    assert(double_spacing(n) == 1);
    assert(nearest_quotient(n, 1) == n);
}

/// A size that a double holds exactly is shown to the nearest tenth of its unit.
pub proof fn lemma_size_is_nearest_tenth(bytes: nat, unit: nat)
    requires
        bytes < EXACT_LIMIT,
        unit > 0,
    ensures
        2 * (tenths(bytes, unit) * unit) <= 2 * (bytes * 10) + unit,
        2 * (bytes * 10) <= 2 * (tenths(bytes, unit) * unit) + unit,
{
    lemma_exact(bytes);
    let n = bytes * 10;
    let q = n / unit;
    let r = n % unit;
    vstd::arithmetic::div_mod::lemma_fundamental_div_mod(n as int, unit as int);
    assert((q + 1) * unit == q * unit + unit) by (nonlinear_arith);
    assert(unit * q == q * unit) by (nonlinear_arith);
}

proof fn lemma_nearest_quotient_grows(x: nat, y: nat, d: nat)
    requires
        x <= y,
        d > 0,
    ensures
        nearest_quotient(x, d) <= nearest_quotient(y, d),
        nearest_quotient(x, d) <= x / d + 1,
        x / d <= nearest_quotient(x, d),
{
    vstd::arithmetic::div_mod::lemma_fundamental_div_mod(x as int, d as int);
    vstd::arithmetic::div_mod::lemma_fundamental_div_mod(y as int, d as int);
    vstd::arithmetic::div_mod::lemma_div_is_ordered(x as int, y as int, d as int);
}

proof fn lemma_double_spacing(n: nat)
    ensures
        double_spacing(n) >= 1,
        n < EXACT_LIMIT * double_spacing(n),
        double_spacing(n) == 1 || n >= 4503599627370496 * double_spacing(n),
    decreases n,
{
    if n >= EXACT_LIMIT {
        lemma_double_spacing(n / 2);
    }
}

proof fn lemma_double_spacing_grows(a: nat, b: nat)
    requires
        a <= b,
    ensures
        double_spacing(a) == double_spacing(b) || 2 * double_spacing(a) <= double_spacing(b),
    decreases b,
{
    lemma_double_spacing(b);
    if a >= EXACT_LIMIT {
        lemma_double_spacing_grows(a / 2, b / 2);
    } else if b >= EXACT_LIMIT {
        lemma_double_spacing(b / 2);
    }
}

proof fn lemma_nearest_double_grows(a: nat, b: nat)
    requires
        a <= b,
    ensures
        nearest_double(a) <= nearest_double(b),
{
    let s = double_spacing(a);
    let t = double_spacing(b);
    lemma_double_spacing(a);
    lemma_double_spacing(b);
    lemma_double_spacing_grows(a, b);
    lemma_nearest_quotient_grows(a, b, s);
    lemma_nearest_quotient_grows(b, b, t);
    let p = nearest_quotient(a, s);
    let q = nearest_quotient(b, t);
    if s == t {
        assert(p * s <= q * s) by (nonlinear_arith)
            requires
                p <= q,
        ;
    } else {
        let limit = EXACT_LIMIT as nat;
        let half = 4503599627370496nat;
        vstd::arithmetic::div_mod::lemma_div_by_multiple_is_strongly_ordered(
            a as int,
            (limit * s) as int,
            limit as int,
            s as int,
        );
        vstd::arithmetic::div_mod::lemma_div_by_multiple(limit as int, s as int);
        assert(p <= limit);
        assert(b / t >= half) by {
            vstd::arithmetic::div_mod::lemma_div_is_ordered((half * t) as int, b as int, t as int);
            vstd::arithmetic::div_mod::lemma_div_multiples_vanish(half as int, t as int);
            assert(half * t == t * half) by (nonlinear_arith);
        }
        assert(p * s <= limit * s) by (nonlinear_arith)
            requires
                p <= limit,
        ;
        assert(half * t <= q * t) by (nonlinear_arith)
            requires
                half <= q,
        ;
    }
}

proof fn lemma_tenths_grow(a: nat, b: nat, unit: nat)
    requires
        a <= b,
        unit > 0,
    ensures
        tenths(a, unit) <= tenths(b, unit),
{
    lemma_nearest_double_grows(a, b);
    lemma_nearest_quotient_grows(nearest_double(a) * 10, nearest_double(b) * 10, unit);
}

/// The unit in which a size is shown, in bytes.
pub open spec fn unit_of(bytes: nat) -> nat {
    if bytes >= GB {
        GB as nat
    } else if bytes >= MB {
        MB as nat
    } else if bytes >= KB {
        KB as nat
    } else {
        1
    }
}

/// The number that is shown of a size, in tenths of its unit.
pub open spec fn shown_tenths(bytes: nat) -> nat {
    if bytes >= KB {
        tenths(bytes, unit_of(bytes))
    } else {
        bytes * 10
    }
}

/// What is shown behind the number of a size.
pub open spec fn unit_name(unit: nat) -> Seq<char> {
    if unit == GB {
        " GB"@
    } else if unit == MB {
        " MB"@
    } else if unit == KB {
        " KB"@
    } else {
        " B"@
    }
}

/// A larger file is never shown smaller: not in a smaller unit, not with a smaller
/// number of the same unit, and the number of units that is shown never stands for
/// less. A size is shown as its number and its unit, and bytes without a point.
pub proof fn lemma_size_grows(a: nat, b: nat)
    requires
        a <= b,
    ensures
        unit_of(a) <= unit_of(b),
        unit_of(a) == unit_of(b) ==> shown_tenths(a) <= shown_tenths(b),
        shown_tenths(a) * unit_of(a) <= shown_tenths(b) * unit_of(b),
        size_text(a) == (if a >= KB {
            tenths_text(shown_tenths(a))
        } else {
            decimal(a)
        }) + unit_name(unit_of(a)),
{
    let x = unit_of(a);
    let y = unit_of(b);
    if x == y {
        if x > 1 {
            lemma_tenths_grow(a, b, x);
        }
        assert(shown_tenths(a) * x <= shown_tenths(b) * x) by (nonlinear_arith)
            requires
                shown_tenths(a) <= shown_tenths(b),
        ;
    } else {
        lemma_tenths_grow(y, b, y);
        lemma_exact(y);
        assert(tenths(y, y) == 10) by {
            assert((y * 10) as int / y as int == 10 && (y * 10) as int % y as int == 0) by (
                nonlinear_arith)
                requires
                    y > 0,
            ;
        }
        assert(10 * y <= shown_tenths(b) * y) by (nonlinear_arith)
            requires
                10 <= shown_tenths(b),
        ;
        if x > 1 {
            lemma_tenths_grow(a, y, x);
            if x == KB && y == MB {
                assert(nearest_quotient(10485760, 1024) == 10240);
            } else if x == KB {
                assert(nearest_quotient(10737418240, 1024) == 10485760);
            } else {
                assert(nearest_quotient(10737418240, 1048576) == 10240);
            }
            assert(tenths(y, x) * x == 10 * y);
            assert(shown_tenths(a) * x <= tenths(y, x) * x) by (nonlinear_arith)
                requires
                    shown_tenths(a) <= tenths(y, x),
            ;
        }
    }
}

/// The nearest whole number to a quotient is at most a half away from it, and where two are
/// as near, it is the even one.
pub proof fn lemma_nearest_quotient(n: nat, d: nat)
    requires
        d > 0,
    ensures
        2 * n <= 2 * (nearest_quotient(n, d) * d) + d,
        2 * (nearest_quotient(n, d) * d) <= 2 * n + d,
        2 * n == 2 * (nearest_quotient(n, d) * d) + d || 2 * (nearest_quotient(n, d) * d) == 2 * n
            + d ==> nearest_quotient(n, d) % 2 == 0,
{
    let q = n / d;
    vstd::arithmetic::div_mod::lemma_fundamental_div_mod(n as int, d as int);
    assert((q + 1) * d == q * d + d) by (nonlinear_arith);
    assert(d * q == q * d) by (nonlinear_arith);
}

/// A number below 9007199254740992 is a double itself. Above that the doubles around a
/// number are as far apart as a power of two that has between 4503599627370496 and
/// 9007199254740992 multiples up to the number, and the nearest of them counts, of two as
/// near the one with the even multiple.
pub proof fn lemma_nearest_double(n: nat) -> (multiple: nat)
    ensures
        n < 9007199254740992 ==> nearest_double(n) == n,
        double_spacing(n) == 1 || double_spacing(n) % 2 == 0,
        n >= 9007199254740992 ==> double_spacing(n) == 2 * double_spacing(n / 2),
        n >= 9007199254740992 ==> 4503599627370496 * double_spacing(n) <= n,
        n < 9007199254740992 * double_spacing(n),
        nearest_double(n) == multiple * double_spacing(n),
        2 * n <= 2 * nearest_double(n) + double_spacing(n),
        2 * nearest_double(n) <= 2 * n + double_spacing(n),
        2 * n == 2 * nearest_double(n) + double_spacing(n) || 2 * nearest_double(n) == 2 * n
            + double_spacing(n) ==> multiple % 2 == 0,
{
    lemma_double_spacing(n);
    if n < EXACT_LIMIT {
        lemma_exact(n);
    } else {
        lemma_double_spacing(n / 2);
        if n / 2 < EXACT_LIMIT {
            assert(double_spacing(n / 2) == 1);
        }
    }
    lemma_nearest_quotient(n, double_spacing(n));
    nearest_quotient(n, double_spacing(n))
}

/// A size is shown in bytes below 1024, in KB from there on below 1048576, in MB below
/// 1073741824 and in GB from there on. Bytes are shown as they are. In every other unit the
/// size is shown as a whole number, a point and one digit, which together are the tenths
/// of that unit that are nearest to the size as a double, and the even number of tenths of
/// two that are as near.
pub proof fn lemma_size_as_shown(bytes: nat) -> (parts: (Seq<char>, Seq<char>))
    ensures
        bytes < 1024 ==> size_text(bytes) == decimal(bytes) + " B"@,
        bytes >= 1024 ==> {
            let tenths = digits_value(parts.0) * 10 + digits_value(parts.1);
            let unit: nat = if bytes < 1048576 {
                1024
            } else if bytes < 1073741824 {
                1048576
            } else {
                1073741824
            };
            let name = if bytes < 1048576 {
                " KB"@
            } else if bytes < 1073741824 {
                " MB"@
            } else {
                " GB"@
            };
            &&& size_text(bytes) == parts.0 + "."@ + parts.1 + name
            &&& all_digits(parts.0)
            &&& all_digits(parts.1)
            &&& parts.1.len() == 1
            &&& 2 * (10 * nearest_double(bytes)) <= 2 * (tenths * unit) + unit
            &&& 2 * (tenths * unit) <= 2 * (10 * nearest_double(bytes)) + unit
            &&& 2 * (10 * nearest_double(bytes)) == 2 * (tenths * unit) + unit || 2 * (tenths * unit)
                == 2 * (10 * nearest_double(bytes)) + unit ==> tenths % 2 == 0
        },
{
    let unit = unit_of(bytes);
    if bytes >= 1024 {
        let t = tenths(bytes, unit);
        lemma_nearest_quotient(nearest_double(bytes) * 10, unit);
        lemma_number_read_back(t / 10);
        lemma_number_read_back(t % 10);
        assert(digits_value(decimal(t / 10)) * 10 + digits_value(decimal(t % 10)) == t);
        (decimal(t / 10), decimal(t % 10))
    } else {
        (Seq::empty(), Seq::empty())
    }
}

} // verus!
