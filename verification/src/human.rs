//! Sizes in binary units, the way a double-precision quotient with two decimals shows them.

use vstd::arithmetic::{div_mod, power2};
use vstd::prelude::*;

use crate::text;

verus! {

/// The integers from here on may lack an exact double-precision representation.
pub const FIRST_INEXACT: u64 = 0x20_0000_0000_0000;

/// `p / q` rounded to the nearest integer, a tie to the even one.
pub open spec fn round_half_even(p: nat, q: nat) -> nat
    recommends
        q > 0,
{
    let floor = p / q;
    let rest = p % q;
    if 2 * rest < q || (2 * rest == q && floor % 2 == 0) {
        floor
    } else {
        floor + 1
    }
}

/// By how many bits `n` exceeds a significand of 53 bits.
pub open spec fn excess_bits(n: nat) -> nat
    decreases n,
{
    if n < FIRST_INEXACT {
        0
    } else {
        1 + excess_bits(n / 2)
    }
}

/// The double-precision number nearest to `n`, a tie to the even significand.
pub open spec fn nearest_double(n: nat) -> nat {
    let step = power2::pow2(excess_bits(n));
    round_half_even(n, step) * step
}

/// How many bytes the unit that `n` bytes are shown in stands for.
pub open spec fn unit_bytes(n: nat) -> nat {
    if n < 0x400 {
        1
    } else if n < 0x10_0000 {
        0x400
    } else if n < 0x4000_0000 {
        0x10_0000
    } else if n < 0x100_0000_0000 {
        0x4000_0000
    } else if n < 0x4_0000_0000_0000 {
        0x100_0000_0000
    } else {
        0x4_0000_0000_0000
    }
}

/// The name of the unit that `n` bytes are shown in.
pub open spec fn unit_name(n: nat) -> Seq<char> {
    if n < 0x400 {
        "B"@
    } else if n < 0x10_0000 {
        "KiB"@
    } else if n < 0x4000_0000 {
        "MiB"@
    } else if n < 0x100_0000_0000 {
        "GiB"@
    } else if n < 0x4_0000_0000_0000 {
        "TiB"@
    } else {
        "PiB"@
    }
}

/// The hundredths of its unit that `n` bytes are shown as.
pub open spec fn unit_hundredths(n: nat) -> nat {
    round_half_even(100 * nearest_double(n), unit_bytes(n))
}

/// `n` bytes for a reader: whole bytes below one KiB, else two decimals and a binary unit.
pub open spec fn human_bytes_text(n: nat) -> Seq<char> {
    if n < 0x400 {
        text::decimal(n) + " "@ + unit_name(n)
    } else {
        text::hundredths(unit_hundredths(n)) + " "@ + unit_name(n)
    }
}

proof fn lemma_round_half_even(p: nat, q: nat)
    requires
        q > 0,
    ensures
        2 * (round_half_even(p, q) * q - p) <= q,
        2 * (p - round_half_even(p, q) * q) <= q,
        round_half_even(p, q) <= p / q + 1,
{
    let floor = p / q;
    let rest = p % q;
    div_mod::lemma_fundamental_div_mod(p as int, q as int);
    assert(floor * q + rest == p) by (nonlinear_arith)
        requires
            p == q * floor + rest,
    ;
    assert((floor + 1) * q == floor * q + q) by (nonlinear_arith);
}

fn round_div(p: u128, q: u128) -> (r: u128)
    requires
        q > 0,
        2 * q <= u128::MAX,
        p < u128::MAX,
    ensures
        r == round_half_even(p as nat, q as nat),
{
    let floor: u128 = p / q;
    let rest: u128 = p % q;
    assert(floor <= p) by (nonlinear_arith)
        requires
            floor == p / q,
            q > 0,
    ;
    if 2 * rest < q || (2 * rest == q && floor % 2 == 0) {
        floor
    } else {
        floor + 1
    }
}

fn to_double(n: u64) -> (r: u128)
    ensures
        r == nearest_double(n as nat),
        r <= 0x2_0000_0000_0000_0000,
{
    let mut step: u64 = 1;
    let mut rest: u64 = n;
    let ghost mut bits: nat = 0;
    proof {
        power2::lemma2_to64();
    }
    while rest >= FIRST_INEXACT
        invariant
            excess_bits(n as nat) == bits + excess_bits(rest as nat),
            step == power2::pow2(bits),
            step >= 1,
            rest * step <= n,
        decreases rest,
    {
        proof {
            power2::lemma_pow2_unfold(bits + 1);
            assert((rest / 2) * (2 * step) <= rest * step) by (nonlinear_arith);
            assert(2 * step <= n) by (nonlinear_arith)
                requires
                    (rest / 2) * (2 * step) <= n,
                    rest / 2 >= 1,
            ;
            bits = bits + 1;
        }
        rest = rest / 2;
        step = 2 * step;
    }
    let significand: u128 = round_div(n as u128, step as u128);
    proof {
        lemma_round_half_even(n as nat, step as nat);
    }
    significand * step as u128
}

/// `bytes` for a reader: whole bytes below one KiB, else two decimals and a binary unit.
pub fn human_bytes(bytes: u64) -> (shown: String)
    ensures
        shown@ == human_bytes_text(bytes as nat),
{
    if bytes < 0x400 {
        let mut shown = text::decimal_text(bytes);
        shown.append(" ");
        shown.append("B");
        return shown;
    }
    let (unit, name): (u64, &str) = if bytes < 0x10_0000 {
        (0x400, "KiB")
    } else if bytes < 0x4000_0000 {
        (0x10_0000, "MiB")
    } else if bytes < 0x100_0000_0000 {
        (0x4000_0000, "GiB")
    } else if bytes < 0x4_0000_0000_0000 {
        (0x100_0000_0000, "TiB")
    } else {
        (0x4_0000_0000_0000, "PiB")
    };
    let amount: u128 = to_double(bytes);
    let rounded: u128 = round_div(100 * amount, unit as u128);
    proof {
        lemma_round_half_even((100 * amount) as nat, unit as nat);
        let scaled = (100 * amount) as nat;
        assert(scaled / unit as nat <= scaled / 0x400) by (nonlinear_arith)
            requires
                unit >= 0x400,
        ;
    }
    let mut shown = text::hundredths_text(rounded as u64);
    shown.append(" ");
    shown.append(name);
    shown
}

proof fn lemma_excess_bits(n: nat)
    requires
        n >= FIRST_INEXACT,
    ensures
        power2::pow2(excess_bits(n)) * 0x10_0000_0000_0000 <= n,
    decreases n,
{
    power2::lemma2_to64();
    power2::lemma_pow2_unfold(excess_bits(n));
    if n / 2 >= FIRST_INEXACT {
        lemma_excess_bits(n / 2);
    } else {
        assert(excess_bits(n / 2) == 0);
    }
}

/// A number below 2 to the power 53 is its own nearest double.
pub proof fn law_small_numbers_are_exact(n: nat)
    requires
        n < FIRST_INEXACT,
    ensures
        nearest_double(n) == n,
{
    power2::lemma2_to64();
    lemma_round_half_even(n, 1);
}

/// The amount shown is off by at most half a hundredth of the unit as long as the size has an
/// exact double, and by less than a whole hundredth for every size.
pub proof fn law_human_bytes_accurate(n: u64)
    requires
        n >= 0x400,
    ensures
        ({
            let unit = unit_bytes(n as nat);
            let off = unit_hundredths(n as nat) * unit - 100 * n;
            &&& -unit < off < unit
            &&& n < FIRST_INEXACT ==> -unit <= 2 * off <= unit
        }),
{
    let unit = unit_bytes(n as nat);
    lemma_round_half_even(100 * nearest_double(n as nat), unit);
    if n < FIRST_INEXACT {
        law_small_numbers_are_exact(n as nat);
    } else {
        let step = power2::pow2(excess_bits(n as nat));
        power2::lemma_pow2_pos(excess_bits(n as nat));
        lemma_excess_bits(n as nat);
        lemma_round_half_even(n as nat, step);
    }
}

/// A size of at least one byte is at least one of its unit, and less than 1024 of it unless the
/// unit is the largest one.
pub proof fn law_unit_fits(n: nat)
    requires
        n > 0,
    ensures
        unit_bytes(n) <= n,
        n < 1024 * unit_bytes(n) || unit_bytes(n) == 0x4_0000_0000_0000,
{
}

proof fn lemma_ties_are_even(p: nat, q: nat)
    requires
        q > 0,
    ensures
        2 * (round_half_even(p, q) * q - p) == q ==> round_half_even(p, q) % 2 == 0,
        2 * (p - round_half_even(p, q) * q) == q ==> round_half_even(p, q) % 2 == 0,
{
    let floor = p / q;
    let rest = p % q;
    div_mod::lemma_fundamental_div_mod(p as int, q as int);
    assert(floor * q + rest == p) by (nonlinear_arith)
        requires
            p == q * floor + rest,
    ;
    assert((floor + 1) * q == floor * q + q) by (nonlinear_arith);
}

proof fn lemma_excess_bits_cover(n: nat)
    ensures
        n < power2::pow2(excess_bits(n)) * 0x20_0000_0000_0000,
    decreases n,
{
    power2::lemma2_to64();
    if n >= FIRST_INEXACT {
        lemma_excess_bits_cover(n / 2);
        power2::lemma_pow2_unfold(excess_bits(n));
    }
}

/// The nearest double is a multiple of the distance between the doubles around the number, at most
/// half that distance from it, and in the middle between two the one with the even significand.
pub proof fn law_nearest_double_is_nearest(n: nat)
    ensures
        exists|bits: nat|
            {
                let step = #[trigger] power2::pow2(bits);
                let double = nearest_double(n);
                let significand = double / step;
                &&& n < 0x20_0000_0000_0000 * step
                &&& bits > 0 ==> 0x10_0000_0000_0000 * step <= n
                &&& double == significand * step
                &&& -step <= 2 * (double - n) <= step
                &&& 2 * (double - n) == step || 2 * (n - double) == step ==> significand % 2 == 0
            },
{
    let bits = excess_bits(n);
    let step = power2::pow2(bits);
    let rounded = round_half_even(n, step);
    power2::lemma_pow2_pos(bits);
    lemma_excess_bits_cover(n);
    if n >= FIRST_INEXACT {
        lemma_excess_bits(n);
    }
    lemma_round_half_even(n, step);
    lemma_ties_are_even(n, step);
    div_mod::lemma_div_multiples_vanish(rounded as int, step as int);
    assert(step as int * rounded as int == rounded as int * step as int) by (nonlinear_arith);
    assert(nearest_double(n) / step == rounded);
}

/// A size below 1024 bytes is shown in decimal, with the unit `B`.
pub proof fn law_small_sizes_are_shown_in_bytes(n: nat)
    requires
        n < 1024,
    ensures
        ({
            let shown = human_bytes_text(n);
            let end = shown.len() - 2;
            &&& end > 0
            &&& shown.skip(end) == " B"@
            &&& shown.take(end) == text::decimal(n)
            &&& text::is_digits(shown.take(end))
            &&& text::number_read(shown.take(end)) == n
        }),
{
    reveal_strlit("B");
    reveal_strlit(" ");
    reveal_strlit(" B");
    text::law_decimals_read_back(n);
    let shown = human_bytes_text(n);
    let end = shown.len() - 2;
    assert(shown.skip(end) =~= " B"@);
    assert(shown.take(end) =~= text::decimal(n));
}

/// Whether `name` is the unit of `bytes` bytes: a power of 1024 from KiB to PiB.
pub open spec fn is_binary_unit(bytes: nat, name: Seq<char>) -> bool {
    ||| bytes == 1024 && name == "KiB"@
    ||| bytes == 1024 * 1024 && name == "MiB"@
    ||| bytes == 1024 * 1024 * 1024 && name == "GiB"@
    ||| bytes == 1024 * 1024 * 1024 * 1024 && name == "TiB"@
    ||| bytes == 1024 * 1024 * 1024 * 1024 * 1024 && name == "PiB"@
}

/// A larger size is shown in the binary unit of which it has at least one, and less than 1024
/// unless that is the largest one, with two decimals. The hundredths shown are those nearest to
/// the double nearest to the size, in the middle between two the even ones.
pub proof fn law_larger_sizes_are_shown_in_units(n: u64, unit: nat, name: Seq<char>)
    requires
        is_binary_unit(unit, name),
        unit <= n,
        n < 1024 * unit || name == "PiB"@,
    ensures
        ({
            let shown = human_bytes_text(n as nat);
            let end = shown.len() - 4;
            let point = end - 3;
            let whole = shown.take(point);
            let digits = whole + shown.subrange(point + 1, end);
            let hundredths = text::number_read(digits);
            let off = hundredths * unit - 100 * nearest_double(n as nat);
            &&& point > 0
            &&& shown.skip(end) == " "@ + name
            &&& shown[point] == '.'
            &&& text::is_digits(digits)
            &&& whole == text::decimal((hundredths / 100) as nat)
            &&& -unit <= 2 * off <= unit
            &&& 2 * off == unit || 2 * off == -unit ==> hundredths % 2 == 0
            &&& -unit < hundredths * unit - 100 * n < unit
            &&& n < 0x20_0000_0000_0000 ==> nearest_double(n as nat) == n
        }),
{
    reveal_strlit(" ");
    reveal_strlit("KiB");
    reveal_strlit("MiB");
    reveal_strlit("GiB");
    reveal_strlit("TiB");
    reveal_strlit("PiB");
    assert("PiB"@[0] == 'P' && "KiB"@[0] == 'K' && "MiB"@[0] == 'M' && "GiB"@[0] == 'G'
        && "TiB"@[0] == 'T');
    assert(unit_bytes(n as nat) == unit && unit_name(n as nat) == name);
    let h = unit_hundredths(n as nat);
    let shown = human_bytes_text(n as nat);
    let amount = text::hundredths(h);
    let end = shown.len() - 4;
    let point = end - 3;
    text::law_hundredths_read_back(h);
    lemma_round_half_even(100 * nearest_double(n as nat), unit);
    lemma_ties_are_even(100 * nearest_double(n as nat), unit);
    law_human_bytes_accurate(n);
    if n < FIRST_INEXACT {
        law_small_numbers_are_exact(n as nat);
    }
    assert(end == amount.len());
    assert(shown.skip(end) =~= " "@ + name);
    assert(shown.take(point) =~= amount.take(point));
    assert(shown.subrange(point + 1, end) =~= amount.skip(point + 1));
    assert(shown[point] == amount[point]);
}

/// A size is shown with digits, a full stop, a space and letters only.
pub(crate) proof fn lemma_sizes_are_plain(n: u64)
    ensures
        ({
            let shown = human_bytes_text(n as nat);
            forall|i: int|
                0 <= i < shown.len() ==> {
                    ||| '0' <= #[trigger] shown[i] <= '9'
                    ||| 'A' <= shown[i] <= 'Z'
                    ||| 'a' <= shown[i] <= 'z'
                    ||| shown[i] == '.'
                    ||| shown[i] == ' '
                }
        }),
{
    reveal_strlit(" ");
    reveal_strlit(".");
    reveal_strlit("B");
    reveal_strlit("KiB");
    reveal_strlit("MiB");
    reveal_strlit("GiB");
    reveal_strlit("TiB");
    reveal_strlit("PiB");
    let h = unit_hundredths(n as nat);
    text::lemma_decimal_is_digits(n as nat);
    text::lemma_decimal_is_digits(h / 100);
    text::lemma_decimal_is_digits(h / 10 % 10);
    text::lemma_decimal_is_digits(h % 10);
    let amount = if n < 0x400 {
        text::decimal(n as nat)
    } else {
        text::hundredths(h)
    };
    assert forall|i: int| 0 <= i < amount.len() implies ('0' <= #[trigger] amount[i] <= '9'
        || amount[i] == '.') by {
        if n >= 0x400 {
            let whole = text::decimal(h / 100);
            let tens = text::decimal(h / 10 % 10);
            assert(amount == whole + "."@ + tens + text::decimal(h % 10));
        }
    }
    let name = unit_name(n as nat);
    let shown = amount + " "@ + name;
    assert(shown == human_bytes_text(n as nat));
    assert forall|i: int| 0 <= i < shown.len() implies {
        ||| '0' <= #[trigger] shown[i] <= '9'
        ||| 'A' <= shown[i] <= 'Z'
        ||| 'a' <= shown[i] <= 'z'
        ||| shown[i] == '.'
        ||| shown[i] == ' '
    } by {
        if i < amount.len() {
            assert(shown[i] == amount[i]);
        } else if i > amount.len() {
            assert(shown[i] == name[i - amount.len() - 1]);
        }
    }
}

} // verus!
