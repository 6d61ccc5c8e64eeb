//! Human-readable byte counts for table output.
use vstd::prelude::*;
use crate::text::{dec, dec_exec, digit_char_exec, extend, extend_str, to_string};

verus! {

/// 1024 raised to `k`.
pub open spec fn unit(k: nat) -> nat
    decreases k,
{
    if k == 0 {
        1
    } else {
        1024 * unit((k - 1) as nat)
    }
}

/// The binary unit suffix for `1024^k` bytes, `1 <= k <= 6`.
pub open spec fn unit_name(k: nat) -> Seq<char> {
    if k == 1 {
        "KiB"@
    } else if k == 2 {
        "MiB"@
    } else if k == 3 {
        "GiB"@
    } else if k == 4 {
        "TiB"@
    } else if k == 5 {
        "PiB"@
    } else {
        "EiB"@
    }
}

/// The power of 1000 named by an SI prefix letter (kilo = 1000^1 up to
/// exa = 1000^6); 0 for any other character.
pub open spec fn si_power(c: char) -> nat {
    if c == 'K' || c == 'k' {
        1
    } else if c == 'M' {
        2
    } else if c == 'G' {
        3
    } else if c == 'T' {
        4
    } else if c == 'P' {
        5
    } else if c == 'E' {
        6
    } else {
        0
    }
}

/// Law: each unit is named by the IEC convention: the unit of `1024^k`
/// bytes is the SI prefix of `1000^k` followed by `iB` (KiB, MiB, GiB, TiB,
/// PiB, EiB), so no two units share a name.
pub proof fn lemma_unit_names(k: nat, j: nat)
    requires
        1 <= k <= 6,
        1 <= j <= 6,
    ensures
        unit_name(k).len() == 3,
        si_power(unit_name(k)[0]) == k,
        unit_name(k)[1] == 'i',
        unit_name(k)[2] == 'B',
        j != k ==> unit_name(j) != unit_name(k),
{
    reveal_strlit("KiB");
    reveal_strlit("MiB");
    reveal_strlit("GiB");
    reveal_strlit("TiB");
    reveal_strlit("PiB");
    reveal_strlit("EiB");
    if j != k {
        assert(si_power(unit_name(j)[0]) != si_power(unit_name(k)[0]));
    }
}

/// The largest `k <= 6` with `1024^k <= n` (for `n >= 1`).
pub open spec fn unit_index(n: nat) -> nat {
    if n >= unit(6) {
        6
    } else if n >= unit(5) {
        5
    } else if n >= unit(4) {
        4
    } else if n >= unit(3) {
        3
    } else if n >= unit(2) {
        2
    } else if n >= unit(1) {
        1
    } else {
        0
    }
}

/// A byte count as people read it: below 1 KiB the exact count and `B`
/// (`"512 B"`); otherwise the count in the largest binary unit that it
/// reaches, with one decimal (rounded down), e.g. `"1.5 KiB"`, `"3.0 GiB"`.
pub open spec fn human_text(n: nat) -> Seq<char> {
    let k = unit_index(n);
    if k == 0 {
        dec(n) + " B"@
    } else {
        let u = unit(k);
        dec(n / u) + seq!['.', crate::text::digit_char(((n % u) * 10) / u)] + seq![' '] + unit_name(k)
    }
}

/// Format a byte count for humans (see [`human_text`]).
pub fn human(n: u64) -> (r: String)
    ensures
        r@ == human_text(n as nat),
{
    assert(unit(1) == 1024) by { reveal_with_fuel(unit, 2); }
    assert(unit(2) == 1048576) by { reveal_with_fuel(unit, 3); }
    assert(unit(3) == 1073741824) by { reveal_with_fuel(unit, 4); }
    assert(unit(4) == 1099511627776) by { reveal_with_fuel(unit, 5); }
    assert(unit(5) == 1125899906842624) by { reveal_with_fuel(unit, 6); }
    assert(unit(6) == 1152921504606846976) by { reveal_with_fuel(unit, 7); }
    let mut out: Vec<char> = Vec::new();
    if n < 1024 {
        let d = dec_exec(n);
        extend(&mut out, &d);
        extend_str(&mut out, " B");
        return to_string(&out);
    }
    let (u, k): (u64, u64) = if n >= 1152921504606846976 {
        (1152921504606846976, 6)
    } else if n >= 1125899906842624 {
        (1125899906842624, 5)
    } else if n >= 1099511627776 {
        (1099511627776, 4)
    } else if n >= 1073741824 {
        (1073741824, 3)
    } else if n >= 1048576 {
        (1048576, 2)
    } else {
        (1024, 1)
    };
    assert(k as nat == unit_index(n as nat));
    assert(u as nat == unit(k as nat));
    let whole = n / u;
    let rem = n % u;
    // rem < u <= 2^60, so rem * 10 fits.
    assert(rem * 10 < u * 10) by (nonlinear_arith)
        requires
            rem < u,
    ;
    let tenth = (rem * 10) / u;
    assert(tenth < 10) by (nonlinear_arith)
        requires
            rem < u,
            u > 0,
            tenth as int == (rem as int * 10) / (u as int),
    ;
    let d = dec_exec(whole);
    extend(&mut out, &d);
    out.push('.');
    out.push(digit_char_exec(tenth));
    out.push(' ');
    let name = if k == 1 {
        "KiB"
    } else if k == 2 {
        "MiB"
    } else if k == 3 {
        "GiB"
    } else if k == 4 {
        "TiB"
    } else if k == 5 {
        "PiB"
    } else {
        "EiB"
    };
    extend_str(&mut out, name);
    assert(name@ == unit_name(k as nat));
    assert(out@ =~= human_text(n as nat));
    to_string(&out)
}

} // verus!
