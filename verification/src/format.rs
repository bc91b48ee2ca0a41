//! Human-readable sizes and section icons, and the integer side of reading
//! sizes such as `"1.5GB"` that Docker prints.
use vstd::prelude::*;

use crate::text::{
    chars_end_with, chars_of, decimal, digit_char, has_suffix, lowercase, push_decimal, push_str,
    same_chars, string_from_chars, to_lower, trim, trimmed,
};
use vstd::arithmetic::div_mod::lemma_div_denominator;

verus! {

pub const KIB: u64 = 1024;

pub const MIB: u64 = 1048576;

pub const GIB: u64 = 1073741824;

/// The distance between neighbouring 64-bit floats around `b`, for `b < 2^64`.
pub open spec fn double_step(b: nat) -> nat {
    if b < 0x20000000000000 {
        1
    } else if b < 0x40000000000000 {
        2
    } else if b < 0x80000000000000 {
        4
    } else if b < 0x100000000000000 {
        8
    } else if b < 0x200000000000000 {
        16
    } else if b < 0x400000000000000 {
        32
    } else if b < 0x800000000000000 {
        64
    } else if b < 0x1000000000000000 {
        128
    } else if b < 0x2000000000000000 {
        256
    } else if b < 0x4000000000000000 {
        512
    } else if b < 0x8000000000000000 {
        1024
    } else {
        2048
    }
}

/// `n / d` rounded to the nearest integer, ties to the even one.
pub open spec fn div_round_even(n: nat, d: nat) -> nat {
    let q = n / d;
    let r = n % d;
    if 2 * r > d || (2 * r == d && q % 2 == 1) {
        q + 1
    } else {
        q
    }
}

/// The value of the 64-bit float nearest to `b` (ties to even), as a cast of
/// a `u64` to a float gives it.
pub open spec fn as_double(b: nat) -> nat {
    let step = double_step(b);
    div_round_even(b, step) * step
}

/// `t` tenths written with one decimal place, such as `"12.3"`.
pub open spec fn tenths_text(t: nat) -> Seq<char> {
    decimal(t / 10).push('.').push(digit_char(t % 10))
}

/// The text that `format_size` gives for `bytes`: the value in the largest
/// binary unit not above it, to one decimal place, rounded half to even, or
/// the plain byte count below one KiB.
pub open spec fn size_text(bytes: nat) -> Seq<char> {
    let f = as_double(bytes);
    if f >= GIB {
        tenths_text(div_round_even(10 * f, GIB as nat)) + " GB"@
    } else if f >= MIB {
        tenths_text(div_round_even(10 * f, MIB as nat)) + " MB"@
    } else if f >= KIB {
        tenths_text(div_round_even(10 * f, KIB as nat)) + " KB"@
    } else {
        decimal(bytes) + " B"@
    }
}

fn step_for(b: u64) -> (r: u64)
    ensures
        r == double_step(b as nat),
{
    if b < 0x20000000000000 {
        1
    } else if b < 0x40000000000000 {
        2
    } else if b < 0x80000000000000 {
        4
    } else if b < 0x100000000000000 {
        8
    } else if b < 0x200000000000000 {
        16
    } else if b < 0x400000000000000 {
        32
    } else if b < 0x800000000000000 {
        64
    } else if b < 0x1000000000000000 {
        128
    } else if b < 0x2000000000000000 {
        256
    } else if b < 0x4000000000000000 {
        512
    } else if b < 0x8000000000000000 {
        1024
    } else {
        2048
    }
}

fn round_even_div(n: u128, d: u128) -> (r: u128)
    requires
        d > 0,
        d < 0x1000000000000000000000000000000,
        n < 0x1000000000000000000000000000000,
    ensures
        r == div_round_even(n as nat, d as nat),
{
    let q = n / d;
    let rem = n % d;
    assert(rem < d);
    assert(q <= n) by (nonlinear_arith)
        requires
            q == n / d,
            d > 0,
    ;
    if 2 * rem > d || (2 * rem == d && q % 2 == 1) {
        q + 1
    } else {
        q
    }
}

fn nearest_double(b: u64) -> (r: u128)
    ensures
        r == as_double(b as nat),
        r <= 0x10000000000000000,
        b < 0x20000000000000 ==> r == b,
        b >= 0x20000000000000 ==> r >= 0x20000000000000,
{
    let step = step_for(b) as u128;
    let q = round_even_div(b as u128, step);
    if b < 0x20000000000000 {
        assert(step == 1);
        assert((b as nat) / 1 == b as nat && (b as nat) % 1 == 0) by (nonlinear_arith);
    }
    assert(q * step <= 0x10000000000000000 && (b >= 0x20000000000000 ==> q * step
        >= 0x20000000000000)) by (nonlinear_arith)
        requires
            q == div_round_even(b as nat, step as nat),
            step == double_step(b as nat),
            b < 0x10000000000000000,
    {
        assert(step >= 1);
        let qq = (b as nat) / (step as nat);
        assert(qq * step <= b);
        assert(b < qq * step + step);
    }
    q * step
}

/// Appends `t` tenths with one decimal place.
fn push_tenths(out: &mut Vec<char>, t: u128)
    requires
        t < 0x10000000000000000,
    ensures
        final(out)@ == old(out)@ + tenths_text(t as nat),
{
    let whole = (t / 10) as u64;
    let frac = (t % 10) as u64;
    push_decimal(out, whole);
    out.push('.');
    let c: char = ((frac as u8) + 48) as char;
    assert(c == digit_char((t % 10) as nat));
    out.push(c);
    assert(old(out)@ + tenths_text(t as nat) == old(out)@ + decimal((t / 10) as nat) + seq!['.']
        + seq![c]);
}

/// A size for people: bytes below one KiB as `"512 B"`, larger sizes in KB,
/// MB or GB (binary units) with one decimal place, as `"1.5 GB"`.
pub fn format_size(bytes: u64) -> (r: String)
    ensures
        r@ == size_text(bytes as nat),
{
    let f = nearest_double(bytes);
    let mut out: Vec<char> = Vec::new();
    if f >= GIB as u128 {
        push_tenths(&mut out, round_even_div(10 * f, GIB as u128));
        push_str(&mut out, " GB");
    } else if f >= MIB as u128 {
        push_tenths(&mut out, round_even_div(10 * f, MIB as u128));
        push_str(&mut out, " MB");
    } else if f >= KIB as u128 {
        push_tenths(&mut out, round_even_div(10 * f, KIB as u128));
        push_str(&mut out, " KB");
    } else {
        push_decimal(&mut out, bytes);
        push_str(&mut out, " B");
    }
    string_from_chars(&out)
}

/// The icon shown before a section's name.
pub open spec fn icon_of(section: Seq<char>) -> Seq<char> {
    if section == "System Caches"@ {
        "🧹"@
    } else if section == "Build Tools"@ {
        "🔧"@
    } else if section == "Go"@ {
        "🐹"@
    } else if section == "Python"@ {
        "🐍"@
    } else if section == "Package Managers"@ {
        "📦"@
    } else if section == "Project Deps"@ {
        "📁"@
    } else if section == "Logs & Temp"@ {
        "🪵"@
    } else if section == "iOS"@ {
        "🍎"@
    } else if section == "Downloads"@ {
        "⬇️"@
    } else if section == "Large Files"@ {
        "🐘"@
    } else if section == "Orphan App Data"@ {
        "🧩"@
    } else if section == "App Bundle"@ {
        "📱"@
    } else if section == "App Traces"@ {
        "🧬"@
    } else {
        "📁"@
    }
}

/// The icon for a section name; unknown sections get a folder.
pub fn section_icon(section: &str) -> (r: &'static str)
    ensures
        r@ == icon_of(section@),
{
    let s = chars_of(section);
    if same_chars(&s, &chars_of("System Caches")) {
        "🧹"
    } else if same_chars(&s, &chars_of("Build Tools")) {
        "🔧"
    } else if same_chars(&s, &chars_of("Go")) {
        "🐹"
    } else if same_chars(&s, &chars_of("Python")) {
        "🐍"
    } else if same_chars(&s, &chars_of("Package Managers")) {
        "📦"
    } else if same_chars(&s, &chars_of("Project Deps")) {
        "📁"
    } else if same_chars(&s, &chars_of("Logs & Temp")) {
        "🪵"
    } else if same_chars(&s, &chars_of("iOS")) {
        "🍎"
    } else if same_chars(&s, &chars_of("Downloads")) {
        "⬇️"
    } else if same_chars(&s, &chars_of("Large Files")) {
        "🐘"
    } else if same_chars(&s, &chars_of("Orphan App Data")) {
        "🧩"
    } else if same_chars(&s, &chars_of("App Bundle")) {
        "📱"
    } else if same_chars(&s, &chars_of("App Traces")) {
        "🧬"
    } else {
        "📁"
    }
}

/// How a size text reads once trimmed and lowercased: a plain byte count, or
/// a number followed by a unit, which scales it by `2^exp`.
pub enum SizeText {
    Plain(String),
    Scaled(String, u32),
}

/// The unit that ends `t`, as the number before it and the binary exponent
/// of the unit, or `None` when `t` ends in no unit.
pub open spec fn unit_split(t: Seq<char>) -> Option<(Seq<char>, nat)> {
    if has_suffix(t, seq!['t', 'b']) {
        Some((t.subrange(0, t.len() - 2), 40))
    } else if has_suffix(t, seq!['t']) {
        Some((t.subrange(0, t.len() - 1), 40))
    } else if has_suffix(t, seq!['g', 'b']) {
        Some((t.subrange(0, t.len() - 2), 30))
    } else if has_suffix(t, seq!['g']) {
        Some((t.subrange(0, t.len() - 1), 30))
    } else if has_suffix(t, seq!['m', 'b']) {
        Some((t.subrange(0, t.len() - 2), 20))
    } else if has_suffix(t, seq!['m']) {
        Some((t.subrange(0, t.len() - 1), 20))
    } else if has_suffix(t, seq!['k', 'b']) {
        Some((t.subrange(0, t.len() - 2), 10))
    } else if has_suffix(t, seq!['k']) {
        Some((t.subrange(0, t.len() - 1), 10))
    } else if has_suffix(t, seq!['b']) {
        Some((t.subrange(0, t.len() - 1), 0))
    } else {
        None
    }
}

/// `r` is how the lowercased, trimmed text `t` reads: the number before the
/// unit (trimmed again) with the unit's exponent, or all of `t` when it has no
/// unit.
pub open spec fn reads_as(r: SizeText, t: Seq<char>) -> bool {
    match unit_split(t) {
        Some((n, e)) => r matches SizeText::Scaled(m, x) && m@ == trim(n) && x == e,
        None => r matches SizeText::Plain(p) && p@ == t,
    }
}

fn split_at_suffix(t: &Vec<char>, cut: usize) -> (r: String)
    requires
        cut <= t.len(),
    ensures
        r@ == trim(t@.subrange(0, t.len() - cut)),
{
    let keep = t.len() - cut;
    let mut head: Vec<char> = Vec::new();
    let mut k: usize = 0;
    while k < keep
        invariant
            0 <= k <= keep,
            keep <= t.len(),
            head@ == t@.subrange(0, k as int),
        decreases keep - k,
    {
        head.push(t[k]);
        k = k + 1;
        assert(t@.subrange(0, k as int) == t@.subrange(0, k - 1).push(t@[k - 1]));
    }
    let n = trimmed(&head);
    string_from_chars(&n)
}

/// Splits an already trimmed and lowercased size text into its number and unit.
pub fn split_size_units(t: &Vec<char>) -> (r: SizeText)
    ensures
        reads_as(r, t@),
{
    let tb = vec!['t', 'b'];
    let tt = vec!['t'];
    let gb = vec!['g', 'b'];
    let gg = vec!['g'];
    let mb = vec!['m', 'b'];
    let mm = vec!['m'];
    let kb = vec!['k', 'b'];
    let kk = vec!['k'];
    let bb = vec!['b'];
    assert(tb@ == seq!['t', 'b'] && tt@ == seq!['t'] && gb@ == seq!['g', 'b'] && gg@ == seq!['g']);
    assert(mb@ == seq!['m', 'b'] && mm@ == seq!['m'] && kb@ == seq!['k', 'b'] && kk@ == seq!['k']);
    assert(bb@ == seq!['b']);
    if chars_end_with(t, &tb) {
        SizeText::Scaled(split_at_suffix(t, 2), 40)
    } else if chars_end_with(t, &tt) {
        SizeText::Scaled(split_at_suffix(t, 1), 40)
    } else if chars_end_with(t, &gb) {
        SizeText::Scaled(split_at_suffix(t, 2), 30)
    } else if chars_end_with(t, &gg) {
        SizeText::Scaled(split_at_suffix(t, 1), 30)
    } else if chars_end_with(t, &mb) {
        SizeText::Scaled(split_at_suffix(t, 2), 20)
    } else if chars_end_with(t, &mm) {
        SizeText::Scaled(split_at_suffix(t, 1), 20)
    } else if chars_end_with(t, &kb) {
        SizeText::Scaled(split_at_suffix(t, 2), 10)
    } else if chars_end_with(t, &kk) {
        SizeText::Scaled(split_at_suffix(t, 1), 10)
    } else if chars_end_with(t, &bb) {
        SizeText::Scaled(split_at_suffix(t, 1), 0)
    } else {
        SizeText::Plain(string_from_chars(t))
    }
}

/// Reads a size text such as `" 1.5GB "`: trims it, lowercases it and splits
/// off its unit.
pub fn split_size_suffix(s: &str) -> (r: SizeText)
    ensures
        reads_as(r, lowercase(trim(s@))),
{
    let raw = chars_of(s);
    let t = trimmed(&raw);
    let ts = string_from_chars(&t);
    let low = to_lower(ts.as_str());
    let lc = chars_of(low.as_str());
    split_size_units(&lc)
}

/// An ASCII decimal digit.
pub open spec fn is_digit(c: char) -> bool {
    48 <= c as u32 <= 57
}

/// Every character of `s` is an ASCII decimal digit.
pub open spec fn all_digits(s: Seq<char>) -> bool {
    forall|i: int| 0 <= i < s.len() ==> is_digit(#[trigger] s[i])
}

/// The number that the digits of `s` spell.
pub open spec fn digits_value(s: Seq<char>) -> nat
    decreases s.len(),
{
    if s.len() == 0 {
        0
    } else {
        digits_value(s.drop_last()) * 10 + (s.last() as u32 - 48) as nat
    }
}

/// The digits after an optional leading `+`.
pub open spec fn unsigned_body(s: Seq<char>) -> Seq<char> {
    if s.len() > 0 && s[0] == '+' {
        s.drop_first()
    } else {
        s
    }
}

/// What `str::parse::<u64>` gives: an optional `+`, then at least one digit
/// and nothing else, of a value that fits.
pub open spec fn parse_u64(s: Seq<char>) -> Option<u64> {
    let d = unsigned_body(s);
    if d.len() > 0 && all_digits(d) && digits_value(d) <= u64::MAX {
        Some(digits_value(d) as u64)
    } else {
        None
    }
}

proof fn lemma_digits_grow(s: Seq<char>, k: int)
    requires
        0 <= k <= s.len(),
        forall|i: int| 0 <= i < s.len() ==> is_digit(#[trigger] s[i]),
    ensures
        digits_value(s) >= digits_value(s.subrange(0, k)),
    decreases s.len() - k,
{
    if k < s.len() {
        lemma_digits_grow(s.drop_last(), k);
        assert(s.drop_last().subrange(0, k) == s.subrange(0, k));
    } else {
        assert(s.subrange(0, k) == s);
    }
}

/// Reads a byte count as `str::parse::<u64>` does.
pub fn parse_u64_text(s: &str) -> (r: Option<u64>)
    ensures
        r == parse_u64(s@),
{
    let c = chars_of(s);
    let start: usize = if c.len() > 0 && c[0] == '+' {
        1
    } else {
        0
    };
    let ghost d = unsigned_body(s@);
    assert(d == c@.subrange(start as int, c@.len() as int));
    if start >= c.len() {
        return None;
    }
    let mut v: u64 = 0;
    let mut i: usize = start;
    while i < c.len()
        invariant
            start <= i <= c.len(),
            c@ == s@,
            d == unsigned_body(s@),
            d == c@.subrange(start as int, c@.len() as int),
            forall|k: int| start <= k < i ==> is_digit(#[trigger] c@[k]),
            v == digits_value(c@.subrange(start as int, i as int)),
        decreases c.len() - i,
    {
        let ch = c[i];
        let u = ch as u32;
        if u < 48 || u > 57 {
            assert(d[i - start] == c@[i as int]);
            assert(!is_digit(d[i - start]));
            assert(!all_digits(d));
            return None;
        }
        let next: u128 = (v as u128) * 10 + ((u - 48) as u128);
        let ghost p = c@.subrange(start as int, i + 1);
        assert(p.drop_last() == c@.subrange(start as int, i as int));
        assert(next == digits_value(p));
        if next > u64::MAX as u128 {
            proof {
                assert(d.subrange(0, i + 1 - start) == p);
                if all_digits(d) {
                    lemma_digits_grow(d, i + 1 - start);
                }
            }
            return None;
        }
        v = next as u64;
        i = i + 1;
    }
    assert(c@.subrange(start as int, i as int) == d);
    Some(v)
}

/// `2^n`.
pub open spec fn two_pow(n: nat) -> nat
    decreases n,
{
    if n == 0 {
        1
    } else {
        2 * two_pow((n - 1) as nat)
    }
}

proof fn lemma_two_pow_add(a: nat, b: nat)
    ensures
        two_pow(a + b) == two_pow(a) * two_pow(b),
        two_pow(a) >= 1,
    decreases a,
{
    if a == 0 {
        assert(two_pow(0) == 1);
        assert(two_pow(b) == 1 * two_pow(b));
    } else {
        lemma_two_pow_add((a - 1) as nat, b);
        assert(two_pow(a + b) == 2 * two_pow((a - 1 + b) as nat));
        assert(2 * (two_pow((a - 1) as nat) * two_pow(b)) == (2 * two_pow((a - 1) as nat))
            * two_pow(b)) by (nonlinear_arith);
    }
}

/// What `(x * 2^exp as f64) as u64` gives for the float `x` whose IEEE-754
/// bit pattern is `bits`: not-a-number and negative values give 0, values at
/// or beyond `u64::MAX` (infinity too) give `u64::MAX`, others are truncated
/// toward zero. Multiplying by a power of two loses nothing here.
pub open spec fn scaled_double(bits: nat, exp: nat) -> nat {
    let sign = bits / 0x8000000000000000;
    let biased = (bits / 0x10000000000000) % 2048;
    let frac = bits % 0x10000000000000;
    if biased == 2047 {
        if frac == 0 && sign == 0 {
            u64::MAX as nat
        } else {
            0
        }
    } else if sign == 1 {
        0
    } else {
        let m: nat = if biased == 0 {
            frac
        } else {
            frac + 0x10000000000000
        };
        let k: int = (if biased == 0 {
            1
        } else {
            biased
        }) - 1075 + exp;
        let v: nat = if k >= 0 {
            m * two_pow(k as nat)
        } else {
            m / two_pow((-k) as nat)
        };
        if v > u64::MAX {
            u64::MAX as nat
        } else {
            v
        }
    }
}

/// Scales the float whose bit pattern is `bits` by `2^exp` and converts it to
/// a byte count, saturating as a float-to-integer cast does.
pub fn scale_double_bits(bits: u64, exp: u32) -> (r: u64)
    ensures
        r == scaled_double(bits as nat, exp as nat),
{
    let sign = bits / 0x8000000000000000;
    let biased = (bits / 0x10000000000000) % 2048;
    let frac = bits % 0x10000000000000;
    if biased == 2047 {
        if frac == 0 && sign == 0 {
            return u64::MAX;
        } else {
            return 0;
        }
    }
    if sign == 1 {
        return 0;
    }
    let m: u64 = if biased == 0 {
        frac
    } else {
        frac + 0x10000000000000
    };
    let k: i64 = (if biased == 0 {
        1
    } else {
        biased as i64
    }) - 1075 + exp as i64;
    if k >= 0 {
        let mut v: u128 = m as u128;
        let mut j: i64 = 0;
        assert(two_pow(0) == 1);
        assert(m * 1 == m);
        while j < k && v <= u64::MAX as u128
            invariant
                0 <= j <= k,
                v == m * two_pow(j as nat),
                v <= 2 * (u64::MAX as nat) + 2,
            decreases k - j,
        {
            assert(v * 2 == m * two_pow((j + 1) as nat)) by (nonlinear_arith)
                requires
                    v == m * two_pow(j as nat),
                    two_pow((j + 1) as nat) == 2 * two_pow(j as nat),
            ;
            v = v * 2;
            j = j + 1;
        }
        if v > u64::MAX as u128 {
            proof {
                lemma_two_pow_add(j as nat, (k - j) as nat);
                lemma_two_pow_add((k - j) as nat, 0);
                assert(m * two_pow(k as nat) >= v) by (nonlinear_arith)
                    requires
                        v == m * two_pow(j as nat),
                        two_pow(k as nat) == two_pow(j as nat) * two_pow((k - j) as nat),
                        two_pow((k - j) as nat) >= 1,
                ;
            }
            u64::MAX
        } else {
            v as u64
        }
    } else {
        let n: i64 = -k;
        let mut v: u64 = m;
        let mut j: i64 = 0;
        assert(two_pow(0) == 1);
        assert((m as nat) / 1 == m) by (nonlinear_arith);
        while j < n && v > 0
            invariant
                0 <= j <= n,
                v == (m as nat) / two_pow(j as nat),
            decreases n - j,
        {
            proof {
                lemma_two_pow_add(j as nat, 1);
                reveal_with_fuel(two_pow, 2);
                assert(two_pow(1) == 2);
                lemma_div_denominator(m as int, two_pow(j as nat) as int, 2);
            }
            v = v / 2;
            j = j + 1;
        }
        proof {
            lemma_two_pow_add(j as nat, (n - j) as nat);
            lemma_two_pow_add((n - j) as nat, 0);
            lemma_div_denominator(m as int, two_pow(j as nat) as int, two_pow((n - j) as nat) as int);
            if j < n {
                assert(v == 0);
                assert(0int / (two_pow((n - j) as nat) as int) == 0) by (nonlinear_arith)
                    requires two_pow((n - j) as nat) >= 1;
            } else {
                assert(two_pow(0) == 1);
            }
        }
        v
    }
}

/// How many doublings bring the whole number `n` to at least 2^52 (none for
/// 0 or when it is there already).
pub open spec fn normal_shift(n: nat) -> nat
    decreases 0x20000000000000 - n,
{
    if n == 0 || n >= 0x10000000000000 {
        0
    } else {
        1 + normal_shift(2 * n)
    }
}

/// The IEEE-754 bit pattern of the 64-bit float equal to the whole number
/// `n`, for `0 < n < 2^53`: exponent and 52-bit fraction of `n`.
pub open spec fn whole_double_bits(n: nat) -> nat {
    let s = normal_shift(n);
    ((1075 - s) * 0x10000000000000 + (n * two_pow(s) - 0x10000000000000)) as nat
}

proof fn lemma_normal_shift(n: nat)
    requires
        0 < n < 0x20000000000000,
    ensures
        0x10000000000000 <= n * two_pow(normal_shift(n)) < 0x20000000000000,
        normal_shift(n) <= 52,
    decreases 0x20000000000000 - n,
{
    let s = normal_shift(n);
    if n >= 0x10000000000000 {
        assert(two_pow(0) == 1);
    } else {
        lemma_normal_shift(2 * n);
        let t = normal_shift(2 * n);
        assert(s == t + 1);
        assert(two_pow(s) == 2 * two_pow(t));
        assert(n * two_pow(s) == (2 * n) * two_pow(t)) by (nonlinear_arith)
            requires
                two_pow(s) == 2 * two_pow(t),
        ;
        lemma_two_pow_add(t, 0);
        assert(two_pow(s) <= n * two_pow(s)) by (nonlinear_arith)
            requires
                n >= 1,
        ;
        if s > 52 {
            lemma_two_pow_add(53, (s - 53) as nat);
            lemma_two_pow_53();
            assert(two_pow(53) * two_pow((s - 53) as nat) >= two_pow(53)) by (nonlinear_arith)
                requires
                    two_pow((s - 53) as nat) >= 1,
            ;
        }
    }
}

proof fn lemma_two_pow_53()
    ensures
        two_pow(53) == 0x20000000000000,
{
    reveal_with_fuel(two_pow, 54);
}

/// Scaling a whole-number float by a unit is exact: the float equal to a
/// whole number `n` below 2^53, scaled by `2^exp` and converted to a byte
/// count, is `n * 2^exp`, or `u64::MAX` when that does not fit.
pub proof fn law_whole_scaling_exact(n: nat, exp: nat)
    requires
        0 < n < 0x20000000000000,
    ensures
        scaled_double(whole_double_bits(n), exp) == if n * two_pow(exp) > u64::MAX {
            u64::MAX as nat
        } else {
            n * two_pow(exp)
        },
{
    lemma_normal_shift(n);
    let s = normal_shift(n);
    let m = n * two_pow(s);
    let big = (1075 - s) as nat;
    let f = (m - 0x10000000000000) as nat;
    let bits = whole_double_bits(n);
    assert(bits == big * 0x10000000000000 + f);
    vstd::arithmetic::div_mod::lemma_fundamental_div_mod_converse_div(
        bits as int,
        0x10000000000000,
        big as int,
        f as int,
    );
    vstd::arithmetic::div_mod::lemma_fundamental_div_mod_converse_mod(
        bits as int,
        0x10000000000000,
        big as int,
        f as int,
    );
    vstd::arithmetic::div_mod::lemma_fundamental_div_mod_converse_div(
        bits as int,
        0x8000000000000000,
        0,
        bits as int,
    );
    assert(bits / 0x8000000000000000 == 0);
    assert(bits / 0x10000000000000 == big);
    assert(big % 2048 == big);
    assert(bits % 0x10000000000000 == f);
    let k: int = big - 1075 + exp;
    assert(k == exp - s);
    if k >= 0 {
        lemma_two_pow_add(s, k as nat);
        assert(s + (k as nat) == exp);
        assert(m * two_pow(k as nat) == n * two_pow(exp)) by (nonlinear_arith)
            requires
                m == n * two_pow(s),
                two_pow(exp) == two_pow(s) * two_pow(k as nat),
        ;
    } else {
        let j = (s - exp) as nat;
        lemma_two_pow_add(exp, j);
        assert(exp + j == s);
        assert(m == (n * two_pow(exp)) * two_pow(j)) by (nonlinear_arith)
            requires
                m == n * two_pow(s),
                two_pow(s) == two_pow(exp) * two_pow(j),
        ;
        vstd::arithmetic::div_mod::lemma_fundamental_div_mod_converse_div(
            m as int,
            two_pow(j) as int,
            (n * two_pow(exp)) as int,
            0,
        );
        assert(-k == j);
    }
}

} // verus!
