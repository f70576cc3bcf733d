//! Text rendering of sizes and frequency tables.
use vstd::prelude::*;
use vstd::arithmetic::div_mod::lemma_div_denominator;

verus! {

/// Bar glyphs from empty to full.
pub const FREQ_CHAR: [char; 9] = [' ', '▁', '▂', '▃', '▄', '▅', '▆', '▇', '█'];

/// Unit letters for powers of 1000, from bytes up.
pub const UNITS: [char; 9] = ['B', 'K', 'M', 'G', 'T', 'P', 'E', 'Z', 'Y'];

/// Decimal digit glyphs.
pub const DIGITS: [char; 10] = ['0', '1', '2', '3', '4', '5', '6', '7', '8', '9'];

/// Relies on String::push: appends one character.
pub assume_specification[ String::push ](s: &mut String, ch: char)
    ensures
        final(s)@ == old(s)@.push(ch),
;

/// `1000` to the power `i`.
pub open spec fn pow1000(i: nat) -> nat
    decreases i,
{
    if i == 0 {
        1
    } else {
        1000 * pow1000((i - 1) as nat)
    }
}

/// How many times `q` can be divided by 1000 before it falls below 1000.
pub open spec fn size_unit(q: nat) -> nat
    decreases q,
{
    if q < 1000 {
        0
    } else {
        1 + size_unit(q / 1000)
    }
}

/// `s` in tenths of its unit, rounded to the nearest tenth, halves up.
pub open spec fn size_tenths(s: nat) -> nat {
    let d = pow1000(size_unit(s));
    (20 * s + d) / (2 * d)
}

/// The decimal digits of `n`, without leading zeros.
pub open spec fn decimal(n: nat) -> Seq<char>
    decreases n,
{
    if n < 10 {
        seq![DIGITS[n as int]]
    } else {
        decimal(n / 10).push(DIGITS[(n % 10) as int])
    }
}

/// `t` right-aligned in a field of `w` characters.
pub open spec fn pad_left(t: Seq<char>, w: nat) -> Seq<char> {
    if t.len() < w {
        Seq::new((w - t.len()) as nat, |_i: int| ' ') + t
    } else {
        t
    }
}

/// A byte count in the largest unit that keeps it under 1000, with one
/// decimal, right-aligned to six characters: `"  12.3 K "`.
pub open spec fn size_text(s: nat) -> Seq<char> {
    let t = size_tenths(s);
    pad_left(decimal(t / 10).push('.').push(DIGITS[(t % 10) as int]), 6) + seq![
        ' ',
        UNITS[size_unit(s) as int],
        ' ',
    ]
}

proof fn lemma_pow1000_pos(i: nat)
    ensures
        pow1000(i) >= 1,
    decreases i,
{
    if i > 0 {
        lemma_pow1000_pos((i - 1) as nat);
    }
}

proof fn lemma_size_unit_le(q: nat)
    ensures
        pow1000(size_unit(q)) <= if q == 0 { 1 } else { q },
    decreases q,
{
    if q >= 1000 {
        lemma_size_unit_le(q / 1000);
    }
}

fn decimal_len(n: u64) -> (r: usize)
    requires
        n < 10000,
    ensures
        r == decimal(n as nat).len(),
        r <= 4,
        n < 1000 ==> r <= 3,
        n < 100 ==> r <= 2,
    decreases n,
{
    if n < 10 {
        1
    } else {
        decimal_len(n / 10) + 1
    }
}

fn push_decimal(out: &mut String, n: u64)
    ensures
        final(out)@ == old(out)@ + decimal(n as nat),
    decreases n,
{
    if n >= 10 {
        push_decimal(out, n / 10);
    }
    out.push(DIGITS[(n % 10) as usize]);
    proof {
        if n >= 10 {
            assert(old(out)@ + decimal(n as nat) =~= old(out)@ + decimal((n / 10) as nat) + seq![
                DIGITS[(n % 10) as int],
            ]);
        } else {
            assert(old(out)@ + decimal(n as nat) =~= old(out)@.push(DIGITS[(n % 10) as int]));
        }
    }
}

/// Renders a byte count as a short human-readable size.
pub fn pretty_size(s: u64) -> (r: String)
    ensures
        r@ == size_text(s as nat),
{
    let mut q: u64 = s;
    let mut d: u64 = 1;
    let mut i: usize = 0;
    while q >= 1000
        invariant
            i + size_unit(q as nat) == size_unit(s as nat),
            d as nat == pow1000(i as nat),
            q as nat == s as nat / (d as nat),
            d as nat * q as nat <= s,
            i <= 6,
            d >= 1,
        decreases q,
    {
        proof {
            lemma_div_denominator(s as int, d as int, 1000);
            lemma_size_unit_le(s as nat);
            assert(d as nat * 1000 <= s) by (nonlinear_arith)
                requires
                    d as nat * q as nat <= s,
                    q >= 1000,
                    d >= 1,
            ;
            lemma_pow1000_7();
            lemma_pow1000_mono(i as nat + 1, 7);
        }
        q = q / 1000;
        d = d * 1000;
        i = i + 1;
        proof {
            assert(d as nat * q as nat <= s) by (nonlinear_arith)
                requires
                    q as nat == s as nat / (d as nat),
                    d >= 1,
            ;
        }
    }
    let tenths: u128 = (20 * (s as u128) + d as u128) / (2 * (d as u128));
    proof {
        assert(tenths as nat <= 10000) by (nonlinear_arith)
            requires
                tenths as nat == (20 * (s as nat) + d as nat) / (2 * (d as nat)),
                (s as nat) / (d as nat) < 1000,
                d >= 1,
        ;
    }
    let t: u64 = tenths as u64;
    let whole: u64 = t / 10;
    let len = decimal_len(whole) + 2;
    let mut out = String::new();
    let mut k: usize = len;
    while k < 6
        invariant
            len <= k <= 6,
            out@ == Seq::new((k - len) as nat, |_i: int| ' '),
        decreases 6 - k,
    {
        out.push(' ');
        proof {
            assert(out@ =~= Seq::new((k + 1 - len) as nat, |_i: int| ' '));
        }
        k = k + 1;
    }
    let ghost pad = out@;
    push_decimal(&mut out, whole);
    out.push('.');
    out.push(DIGITS[(t % 10) as usize]);
    out.push(' ');
    out.push(UNITS[i]);
    out.push(' ');
    proof {
        let body = decimal(whole as nat).push('.').push(DIGITS[(t % 10) as int]);
        if body.len() < 6 {
            assert(pad =~= Seq::new((6 - body.len()) as nat, |_i: int| ' '));
        } else {
            assert(pad =~= Seq::<char>::empty());
        }
        assert(out@ =~= size_text(s as nat));
    }
    out
}

proof fn lemma_pow1000_7()
    ensures
        pow1000(7) > u64::MAX,
{
    assert(pow1000(0) == 1);
    assert(pow1000(1) == 1000);
    assert(pow1000(2) == 1000_000);
    assert(pow1000(3) == 1000_000_000);
    assert(pow1000(4) == 1000_000_000_000);
    assert(pow1000(5) == 1000_000_000_000_000);
    assert(pow1000(6) == 1000_000_000_000_000_000);
    assert(pow1000(7) == 1000_000_000_000_000_000_000);
}

proof fn lemma_pow1000_mono(a: nat, b: nat)
    requires
        a <= b,
    ensures
        pow1000(a) <= pow1000(b),
    decreases b,
{
    if a < b {
        lemma_pow1000_mono(a, (b - 1) as nat);
        lemma_pow1000_pos((b - 1) as nat);
    }
}

/// The largest of the first `n` entries of `t`, 0 when there are none.
pub open spec fn max_first(t: Seq<u64>, n: int) -> u64
    decreases n,
{
    if n <= 0 {
        0
    } else if max_first(t, n - 1) >= t[n - 1] {
        max_first(t, n - 1)
    } else {
        t[n - 1]
    }
}

/// The bar height of a count `x` against the largest count `m`: 0 for an
/// absent byte value, else `8 * x / m` rounded down, kept within 0 to 7,
/// plus one.
pub open spec fn bar_level(x: nat, m: nat) -> nat {
    if x == 0 {
        0
    } else if 8 * x / m >= 7 {
        8
    } else {
        8 * x / m + 1
    }
}

/// What follows the glyph of byte value `i`: a row label after every 32
/// values, and a line break after every 64.
pub open spec fn row_break(i: int) -> Seq<char> {
    if i == 0x1F {
        "   20 "@
    } else if i == 0x3F {
        "\n   40 "@
    } else if i == 0x5F {
        "   60 "@
    } else if i == 0x7F {
        "\n   80 "@
    } else if i == 0x9F {
        "   A0 "@
    } else if i == 0xBF {
        "\n   C0 "@
    } else if i == 0xDF {
        "   E0 "@
    } else {
        Seq::empty()
    }
}

/// The first `n` glyphs of the table of `t`, with their labels, when the
/// largest count is `m`.
pub open spec fn table_text(t: Seq<u64>, m: nat, n: int) -> Seq<char>
    decreases n,
{
    if n <= 0 {
        "   00 "@
    } else {
        table_text(t, m, n - 1).push(FREQ_CHAR[bar_level(t[n - 1] as nat, m) as int]) + row_break(
            n - 1,
        )
    }
}

fn push_row_break(out: &mut String, i: usize)
    ensures
        final(out)@ == old(out)@ + row_break(i as int),
{
    if i == 0x1F {
        out.append("   20 ");
    } else if i == 0x3F {
        out.append("\n   40 ");
    } else if i == 0x5F {
        out.append("   60 ");
    } else if i == 0x7F {
        out.append("\n   80 ");
    } else if i == 0x9F {
        out.append("   A0 ");
    } else if i == 0xBF {
        out.append("\n   C0 ");
    } else if i == 0xDF {
        out.append("   E0 ");
    } else {
        assert(old(out)@ + Seq::<char>::empty() =~= old(out)@);
    }
}

/// Renders a frequency table as four rows of bar glyphs, 64 byte values to
/// a row, each scaled against the largest count.
pub fn pretty_ascii_table(t: &[u64; 256]) -> (r: String)
    ensures
        r@ == table_text(t@, max_first(t@, 256) as nat, 256),
{
    let mut m: u64 = 0;
    let mut i: usize = 0;
    while i < 256
        invariant
            i <= 256,
            m == max_first(t@, i as int),
            forall|j: int| 0 <= j < i ==> t@[j] <= m,
        decreases 256 - i,
    {
        if t[i] > m {
            m = t[i];
        }
        i = i + 1;
    }
    let mut out = String::new();
    out.append("   00 ");
    let mut i: usize = 0;
    while i < 256
        invariant
            i <= 256,
            m == max_first(t@, 256),
            forall|j: int| 0 <= j < 256 ==> t@[j] <= m,
            out@ == table_text(t@, m as nat, i as int),
        decreases 256 - i,
    {
        let x = t[i];
        let level: usize = if x == 0 {
            0
        } else {
            let n = (x as u128 * 8) / (m as u128);
            if n >= 7 {
                8
            } else {
                n as usize + 1
            }
        };
        out.push(FREQ_CHAR[level]);
        push_row_break(&mut out, i);
        i = i + 1;
    }
    out
}

} // verus!
