use vstd::prelude::*;
use crate::text::{ends_with, string_of};

verus! {

/// Whether `c` is an ASCII decimal digit.
pub open spec fn is_digit(c: char) -> bool {
    '0' <= c && c <= '9'
}

/// The value of the decimal digit `c`.
pub open spec fn digit_value(c: char) -> int {
    c as int - '0' as int
}

/// Whether every character of `d` is a decimal digit.
pub open spec fn all_digits(d: Seq<char>) -> bool {
    forall|i: int| 0 <= i < d.len() ==> is_digit(#[trigger] d[i])
}

/// The number that the decimal digits `d` spell.
pub open spec fn digits_value(d: Seq<char>) -> nat
    decreases d.len(),
{
    if d.len() == 0 {
        0
    } else {
        (digits_value(d.drop_last()) * 10 + digit_value(d.last())) as nat
    }
}

/// `s` without one leading `'+'`.
pub open spec fn unsigned_digits(s: Seq<char>) -> Seq<char> {
    if s.len() > 0 && s[0] == '+' {
        s.drop_first()
    } else {
        s
    }
}

/// `u64::from_str`: an optional `'+'` and at least one decimal digit, the
/// value in range.
pub open spec fn parse_u64_spec(s: Seq<char>) -> Option<u64> {
    let d = unsigned_digits(s);
    if d.len() > 0 && all_digits(d) && digits_value(d) <= u64::MAX {
        Some(digits_value(d) as u64)
    } else {
        None
    }
}

/// Whether `s` starts with a `'-'`.
pub open spec fn is_negative_text(s: Seq<char>) -> bool {
    s.len() > 0 && s[0] == '-'
}

/// `s` without one leading sign.
pub open spec fn signed_digits(s: Seq<char>) -> Seq<char> {
    if s.len() > 0 && (s[0] == '+' || s[0] == '-') {
        s.drop_first()
    } else {
        s
    }
}

/// `i64::from_str`: an optional sign and at least one decimal digit, the
/// value in range.
pub open spec fn parse_i64_spec(s: Seq<char>) -> Option<i64> {
    let d = signed_digits(s);
    let v: int = if is_negative_text(s) {
        -digits_value(d)
    } else {
        digits_value(d) as int
    };
    if d.len() > 0 && all_digits(d) && i64::MIN <= v <= i64::MAX {
        Some(v as i64)
    } else {
        None
    }
}

proof fn lemma_digits_prefix(d: Seq<char>, i: int)
    requires
        0 <= i <= d.len(),
        all_digits(d),
    ensures
        digits_value(d.take(i)) <= digits_value(d),
    decreases d.len() - i,
{
    if i < d.len() {
        lemma_digits_prefix(d, i + 1);
        assert(d.take(i + 1).drop_last() =~= d.take(i));
        assert(is_digit(d[i]));
    } else {
        assert(d.take(i) =~= d);
    }
}

/// The magnitude of the digits `d` (all of them decimal digits), if it fits in a `u64`.
fn digits_u64(d: &Vec<char>, lo: usize) -> (r: Option<u64>)
    requires
        lo <= d.len(),
    ensures
        all_digits(d@.skip(lo as int)) && digits_value(d@.skip(lo as int)) <= u64::MAX
            <==> r is Some,
        r matches Some(v) ==> v == digits_value(d@.skip(lo as int)),
{
    let ghost t = d@.skip(lo as int);
    let mut acc: u64 = 0;
    let mut i: usize = lo;
    assert(t.take(0) =~= Seq::<char>::empty());
    while i < d.len()
        invariant
            lo <= i <= d.len(),
            t == d@.skip(lo as int),
            all_digits(t.take(i - lo)),
            acc == digits_value(t.take(i - lo)),
        decreases d.len() - i,
    {
        let c = d[i];
        assert(t[i - lo] == c);
        assert(t.take(i - lo + 1).drop_last() =~= t.take(i - lo));
        if !('0' <= c && c <= '9') {
            assert(!is_digit(t[i - lo]));
            return None;
        }
        let dv = (c as u32 - '0' as u32) as u64;
        assert(dv == digit_value(c));
        if acc > (u64::MAX - dv) / 10 {
            proof {
                assert(digits_value(t.take(i - lo + 1)) > u64::MAX) by (nonlinear_arith)
                    requires
                        acc > (u64::MAX - dv) / 10,
                        digits_value(t.take(i - lo + 1)) == acc * 10 + dv,
                        dv <= 9,
                ;
                if all_digits(t) {
                    lemma_digits_prefix(t, i - lo + 1);
                }
            }
            return None;
        }
        acc = acc * 10 + dv;
        i += 1;
        assert forall|k: int| 0 <= k < i - lo implies is_digit(#[trigger] t.take(i - lo)[k]) by {
            if k < i - lo - 1 {
                assert(t.take(i - lo - 1)[k] == t.take(i - lo)[k]);
            }
        }
    }
    assert(t.take(i - lo) =~= t);
    Some(acc)
}

/// `u64::from_str` on the characters of `s`.
pub fn parse_u64(s: &Vec<char>) -> (r: Option<u64>)
    ensures
        r == parse_u64_spec(s@),
{
    let lo: usize = if s.len() > 0 && s[0] == '+' {
        1
    } else {
        0
    };
    assert(s@.skip(lo as int) =~= unsigned_digits(s@));
    if s.len() == lo {
        return None;
    }
    digits_u64(s, lo)
}

/// `i64::from_str` on the characters of `s`.
pub fn parse_i64(s: &Vec<char>) -> (r: Option<i64>)
    ensures
        r == parse_i64_spec(s@),
{
    let neg = s.len() > 0 && s[0] == '-';
    let lo: usize = if s.len() > 0 && (s[0] == '+' || s[0] == '-') {
        1
    } else {
        0
    };
    assert(s@.skip(lo as int) =~= signed_digits(s@));
    if s.len() == lo {
        return None;
    }
    match digits_u64(s, lo) {
        None => {
            proof {
                let d = signed_digits(s@);
                if all_digits(d) {
                    assert(digits_value(d) > u64::MAX);
                }
            }
            None
        },
        Some(m) => {
            if neg {
                if m <= 0x8000_0000_0000_0000u64 {
                    if m == 0x8000_0000_0000_0000u64 {
                        Some(i64::MIN)
                    } else {
                        Some(-(m as i64))
                    }
                } else {
                    None
                }
            } else {
                if m <= 0x7fff_ffff_ffff_ffffu64 {
                    Some(m as i64)
                } else {
                    None
                }
            }
        },
    }
}

/// The character of the decimal digit `d`.
pub open spec fn digit_char(d: int) -> char {
    ('0' as int + d) as char
}

/// The decimal representation of `n`, without leading zeros.
pub open spec fn decimal(n: nat) -> Seq<char>
    decreases n,
{
    if n < 10 {
        seq![digit_char(n as int)]
    } else {
        decimal(n / 10).push(digit_char((n % 10) as int))
    }
}

/// The decimal representation of `n` as characters.
pub fn decimal_chars(n: u128) -> (r: Vec<char>)
    ensures
        r@ == decimal(n as nat),
{
    let mut v: Vec<char> = Vec::new();
    let mut m = n;
    loop
        invariant
            m <= n,
            decimal(n as nat) == decimal(m as nat) + v@,
        decreases m,
    {
        let d = (m % 10) as u8;
        let c = (d + 48u8) as char;
        assert(c == digit_char((m % 10) as int));
        if m < 10 {
            v.insert(0, c);
            assert(decimal(m as nat) =~= seq![c]);
            assert(decimal(n as nat) =~= v@);
            return v;
        }
        let ghost before = v@;
        v.insert(0, c);
        assert(decimal(m as nat) =~= decimal((m / 10) as nat).push(c));
        assert(decimal(m as nat) + before =~= decimal((m / 10) as nat) + v@);
        m = m / 10;
    }
}

/// The decimal representation of `n` as a string.
pub fn decimal_string(n: u64) -> (r: String)
    ensures
        r@ == decimal(n as nat),
{
    string_of(&decimal_chars(n as u128))
}

/// `1024` to the power `u`.
pub open spec fn pow1024(u: nat) -> nat
    decreases u,
{
    if u == 0 {
        1
    } else {
        1024 * pow1024((u - 1) as nat)
    }
}

/// `2` to the power `e`.
pub open spec fn pow2(e: nat) -> nat
    decreases e,
{
    if e == 0 {
        1
    } else {
        2 * pow2((e - 1) as nat)
    }
}

/// The number of binary digits of `b` (0 for 0).
pub open spec fn bit_len(b: nat) -> nat
    decreases b,
{
    if b == 0 {
        0
    } else {
        1 + bit_len(b / 2)
    }
}

/// `b` rounded to the nearest number with at most 53 significant bits, ties to
/// even: the value of `b as f64`.
pub open spec fn round53(b: nat) -> nat {
    if bit_len(b) <= 53 {
        b
    } else {
        let s = (bit_len(b) - 53) as nat;
        let unit = pow2(s);
        let low = b % unit;
        let base = (b - low) as nat;
        if 2 * low > unit || (2 * low == unit && (b / unit) % 2 == 1) {
            base + unit
        } else {
            base
        }
    }
}

/// The largest power of 1024 (at most the fourth) that is not above `b`, by its exponent.
pub open spec fn unit_index(b: nat) -> nat {
    if b >= pow1024(4) {
        4
    } else if b >= pow1024(3) {
        3
    } else if b >= pow1024(2) {
        2
    } else if b >= pow1024(1) {
        1
    } else {
        0
    }
}

/// `n / d` rounded to the nearest integer, ties to even.
pub open spec fn div_round_even(n: nat, d: nat) -> nat {
    let q = n / d;
    let r = n % d;
    if 2 * r > d || (2 * r == d && q % 2 == 1) {
        q + 1
    } else {
        q
    }
}

/// `b as f64 / 1024^u` in tenths, rounded to the nearest tenth with ties to
/// even, `u` being the unit of `b`.
pub open spec fn size_tenths(b: nat) -> nat {
    div_round_even(round53(b) * 10, pow1024(unit_index(b)))
}

/// The name of unit `u`.
pub open spec fn unit_name(u: nat) -> Seq<char> {
    if u == 1 {
        "KiB"@
    } else if u == 2 {
        "MiB"@
    } else if u == 3 {
        "GiB"@
    } else {
        "TiB"@
    }
}

/// `bytes` for people: `"<n> B"` below 1 KiB, else one decimal place in
/// the largest unit up to TiB that it reaches (`"1.5 KiB"`).
pub open spec fn human_size_spec(bytes: nat) -> Seq<char> {
    let u = unit_index(bytes);
    if u == 0 {
        decimal(bytes) + " B"@
    } else {
        let t = size_tenths(bytes);
        decimal(t / 10) + "."@ + decimal(t % 10) + " "@ + unit_name(u)
    }
}

proof fn lemma_pow1024_values()
    ensures
        pow1024(1) == 1024,
        pow1024(2) == 1048576,
        pow1024(3) == 1073741824,
        pow1024(4) == 1099511627776,
{
    reveal_with_fuel(pow1024, 5);
}

/// The number of binary digits of `b`.
fn bit_len_exec(b: u64) -> (r: u32)
    ensures
        r as nat == bit_len(b as nat),
        r <= 64,
{
    proof {
        reveal_with_fuel(pow2, 65);
        lemma_bit_len_bound(b as nat, 64);
    }
    let mut m = b;
    let mut k: u32 = 0;
    while m > 0
        invariant
            bit_len(b as nat) == k + bit_len(m as nat),
            bit_len(b as nat) <= 64,
            m <= b,
        decreases m,
    {
        m = m / 2;
        k = k + 1;
    }
    k
}

proof fn lemma_pow2_mono(i: nat, j: nat)
    requires
        i <= j,
    ensures
        1 <= pow2(i) <= pow2(j),
    decreases j,
{
    if j > i {
        lemma_pow2_mono(i, (j - 1) as nat);
    } else if i > 0 {
        lemma_pow2_mono((i - 1) as nat, (i - 1) as nat);
    }
}

proof fn lemma_bit_len_bound(b: nat, k: nat)
    requires
        b < pow2(k),
    ensures
        bit_len(b) <= k,
    decreases k,
{
    if k > 0 && b > 0 {
        lemma_bit_len_bound(b / 2, (k - 1) as nat);
    }
}

/// `b as f64`, as an integer.
fn round53_exec(b: u64) -> (r: u128)
    ensures
        r as nat == round53(b as nat),
        r <= 0x1_0000_0000_0000_0800u128,
{
    let len = bit_len_exec(b);
    if len <= 53 {
        return b as u128;
    }
    let s = len - 53;
    let mut unit: u128 = 1;
    let mut i: u32 = 0;
    while i < s
        invariant
            i <= s <= 11,
            unit == pow2(i as nat),
            1 <= unit <= 2048,
        decreases s - i,
    {
        proof {
            lemma_pow2_mono(i as nat, 10);
            reveal_with_fuel(pow2, 12);
        }
        unit = unit * 2;
        i = i + 1;
    }
    let bb = b as u128;
    let low = bb % unit;
    assert(low <= bb) by (nonlinear_arith)
        requires
            low == bb % unit,
            unit > 0,
    ;
    let base = bb - low;
    if 2 * low > unit || (2 * low == unit && (bb / unit) % 2 == 1) {
        base + unit
    } else {
        base
    }
}

/// `bytes` for people: `"<n> B"` below 1 KiB, else one decimal place in the
/// largest unit up to TiB that it reaches.
pub fn human_size(bytes: u64) -> (r: String)
    ensures
        r@ == human_size_spec(bytes as nat),
{
    proof {
        lemma_pow1024_values();
    }
    let u: u32 = if bytes >= 1099511627776 {
        4
    } else if bytes >= 1073741824 {
        3
    } else if bytes >= 1048576 {
        2
    } else if bytes >= 1024 {
        1
    } else {
        0
    };
    if u == 0 {
        let mut r = decimal_string(bytes);
        r.append(" B");
        return r;
    }
    let d: u128 = if u == 1 {
        1024
    } else if u == 2 {
        1048576
    } else if u == 3 {
        1073741824
    } else {
        1099511627776
    };
    let n = round53_exec(bytes) * 10;
    let q = n / d;
    let rem = n % d;
    let t = if 2 * rem > d || (2 * rem == d && q % 2 == 1) {
        q + 1
    } else {
        q
    };
    assert(t == size_tenths(bytes as nat));
    let mut r = string_of(&decimal_chars(t / 10));
    r.append(".");
    r.append(string_of(&decimal_chars(t % 10)).as_str());
    r.append(" ");
    r.append(
        if u == 1 {
            "KiB"
        } else if u == 2 {
            "MiB"
        } else if u == 3 {
            "GiB"
        } else {
            "TiB"
        },
    );
    r
}

/// Sizes under one KiB are printed as whole bytes.
pub proof fn law_small_sizes_in_bytes(bytes: nat)
    requires
        bytes < 1024,
    ensures
        human_size_spec(bytes) == decimal(bytes) + " B"@,
{
    lemma_pow1024_values();
}

proof fn lemma_ends_with_unit(pre: Seq<char>, name: Seq<char>, suffix: Seq<char>)
    requires
        suffix == " "@ + name,
    ensures
        ends_with(pre + " "@ + name, suffix),
{
    let s = pre + " "@ + name;
    assert(s.subrange(s.len() - suffix.len(), s.len() as int) =~= suffix);
}

/// A size is printed in the largest of B, KiB, MiB, GiB and TiB that it
/// reaches: below 1024 in bytes, below 1024² in KiB, below 1024³ in MiB,
/// below 1024⁴ in GiB, from there on in TiB.
pub proof fn law_size_unit(bytes: nat)
    ensures
        bytes < 1024 ==> ends_with(human_size_spec(bytes), " B"@),
        1024 <= bytes < 1048576 ==> ends_with(human_size_spec(bytes), " KiB"@),
        1048576 <= bytes < 1073741824 ==> ends_with(human_size_spec(bytes), " MiB"@),
        1073741824 <= bytes < 1099511627776 ==> ends_with(human_size_spec(bytes), " GiB"@),
        1099511627776 <= bytes ==> ends_with(human_size_spec(bytes), " TiB"@),
{
    lemma_pow1024_values();
    reveal_strlit(" ");
    reveal_strlit(" B");
    reveal_strlit("B");
    reveal_strlit("KiB");
    reveal_strlit(" KiB");
    reveal_strlit("MiB");
    reveal_strlit(" MiB");
    reveal_strlit("GiB");
    reveal_strlit(" GiB");
    reveal_strlit("TiB");
    reveal_strlit(" TiB");
    let u = unit_index(bytes);
    if u == 0 {
        let s = decimal(bytes) + " B"@;
        assert(s.subrange(s.len() - 2, s.len() as int) =~= " B"@);
    } else {
        let t = size_tenths(bytes);
        let pre = decimal(t / 10) + "."@ + decimal(t % 10);
        lemma_ends_with_unit(pre, unit_name(u), " "@ + unit_name(u));
        assert(" KiB"@ =~= " "@ + "KiB"@);
        assert(" MiB"@ =~= " "@ + "MiB"@);
        assert(" GiB"@ =~= " "@ + "GiB"@);
        assert(" TiB"@ =~= " "@ + "TiB"@);
    }
}

/// A whole number `k` (1 to 1023) of KiB, MiB, GiB or TiB is printed as
/// `k.0` and that unit: two GiB as `2.0 GiB`.
pub proof fn law_whole_units(k: nat, u: nat)
    requires
        1 <= k < 1024,
        1 <= u <= 4,
    ensures
        human_size_spec(k * pow1024(u)) == decimal(k) + ".0 "@ + (if u == 1 {
            "KiB"@
        } else if u == 2 {
            "MiB"@
        } else if u == 3 {
            "GiB"@
        } else {
            "TiB"@
        }),
{
    lemma_pow1024_values();
    let p = pow1024(u);
    let b = k * p;
    if u == 1 {
        assert(b == k * 1024);
    } else if u == 2 {
        assert(b == k * 1048576);
    } else if u == 3 {
        assert(b == k * 1073741824);
    } else {
        assert(b == k * 1099511627776);
    }
    assert(unit_index(b) == u);
    reveal_with_fuel(pow2, 51);
    assert(pow2(50) == 1125899906842624);
    lemma_bit_len_bound(b, 50);
    assert(round53(b) == b);
    vstd::arithmetic::div_mod::lemma_div_multiples_vanish((10 * k) as int, p as int);
    vstd::arithmetic::div_mod::lemma_mod_multiples_basic((10 * k) as int, p as int);
    assert(b * 10 == p * (10 * k)) by (nonlinear_arith)
        requires
            b == k * p,
    ;
    assert((10 * k) * p == p * (10 * k)) by (nonlinear_arith);
    assert(size_tenths(b) == 10 * k);
    assert((10 * k) / 10 == k);
    assert((10 * k) % 10 == 0);
    reveal_strlit(".");
    reveal_strlit(".0 ");
    reveal_strlit(" ");
    assert(decimal(0) =~= seq!['0']);
    assert(human_size_spec(b) =~= decimal(k) + ".0 "@ + unit_name(u));
}

} // verus!
