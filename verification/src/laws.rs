//! Properties that hold across the library's functions.
use vstd::prelude::*;

use crate::format::{all_digits, digits_value, parse_u64, unsigned_body, is_digit};
use crate::grouping::{groups_sections, positions_total, section_total, SectionGroup, has_group};
use crate::measure::last_size;
use crate::models::CleanupEntry;
use crate::selection::{passes, selected_entries, strictly_increasing};
use crate::format::unit_split;
use crate::text::{decimal, digit_char, has_suffix, is_space, lowercase, trim, trim_start, trim_end};

verus! {

/// The sum of the totals of the groups.
pub open spec fn groups_total(r: Seq<SectionGroup>) -> nat
    decreases r.len(),
{
    if r.len() == 0 {
        0
    } else {
        groups_total(r.drop_last()) + r.last().total_bytes as nat
    }
}

/// The section names of the groups.
pub open spec fn group_sections(r: Seq<SectionGroup>) -> Seq<Seq<char>> {
    Seq::new(r.len(), |a: int| r[a].section@)
}

/// The sum over the sections `s` of their totals among the positions `f`.
pub open spec fn sections_sum(entries: Seq<CleanupEntry>, f: Seq<usize>, s: Seq<Seq<char>>) -> nat
    decreases s.len(),
{
    if s.len() == 0 {
        0
    } else {
        sections_sum(entries, f, s.drop_last()) + section_total(entries, f, s.last())
    }
}

/// `w` counted once for each section of `s` equal to `t`.
pub open spec fn hits(s: Seq<Seq<char>>, t: Seq<char>, w: nat) -> nat
    decreases s.len(),
{
    if s.len() == 0 {
        0
    } else {
        hits(s.drop_last(), t, w) + if s.last() == t {
            w
        } else {
            0nat
        }
    }
}

proof fn lemma_hits(s: Seq<Seq<char>>, t: Seq<char>, w: nat)
    requires
        s.no_duplicates(),
    ensures
        s.contains(t) ==> hits(s, t, w) == w,
        !s.contains(t) ==> hits(s, t, w) == 0,
    decreases s.len(),
{
    if s.len() > 0 {
        let p = s.drop_last();
        assert(p.no_duplicates());
        lemma_hits(p, t, w);
        if s.last() == t {
            if p.contains(t) {
                let j = choose|j: int| 0 <= j < p.len() && p[j] == t;
                assert(s[j] == s[s.len() - 1]);
            }
        } else {
            if s.contains(t) {
                let j = choose|j: int| 0 <= j < s.len() && s[j] == t;
                assert(p[j] == t);
            }
            if p.contains(t) {
                let j = choose|j: int| 0 <= j < p.len() && p[j] == t;
                assert(s[j] == t);
            }
        }
    }
}

proof fn lemma_sum_step(entries: Seq<CleanupEntry>, f: Seq<usize>, s: Seq<Seq<char>>)
    requires
        f.len() > 0,
    ensures
        sections_sum(entries, f, s) == sections_sum(entries, f.drop_last(), s) + hits(
            s,
            entries[f.last() as int].section@,
            entries[f.last() as int].size_bytes as nat,
        ),
    decreases s.len(),
{
    if s.len() > 0 {
        lemma_sum_step(entries, f, s.drop_last());
    }
}

proof fn lemma_sum_empty(entries: Seq<CleanupEntry>, f: Seq<usize>, s: Seq<Seq<char>>)
    requires
        f.len() == 0,
    ensures
        sections_sum(entries, f, s) == 0,
    decreases s.len(),
{
    if s.len() > 0 {
        lemma_sum_empty(entries, f, s.drop_last());
    }
}

proof fn lemma_sections_partition(entries: Seq<CleanupEntry>, f: Seq<usize>, s: Seq<Seq<char>>)
    requires
        s.no_duplicates(),
        forall|k: int| 0 <= k < f.len() ==> s.contains(entries[#[trigger] f[k] as int].section@),
    ensures
        sections_sum(entries, f, s) == positions_total(entries, f),
    decreases f.len(),
{
    if f.len() == 0 {
        lemma_sum_empty(entries, f, s);
    } else {
        let g = f.drop_last();
        assert forall|k: int| 0 <= k < g.len() implies s.contains(entries[#[trigger] g[k] as int].section@) by {
            assert(g[k] == f[k]);
        }
        lemma_sections_partition(entries, g, s);
        lemma_sum_step(entries, f, s);
        assert(f[f.len() - 1] == f.last());
        lemma_hits(s, entries[f.last() as int].section@, entries[f.last() as int].size_bytes as nat);
    }
}

proof fn lemma_groups_total(entries: Seq<CleanupEntry>, f: Seq<usize>, r: Seq<SectionGroup>)
    requires
        forall|a: int| 0 <= a < r.len() ==> (#[trigger] r[a]).total_bytes == section_total(
            entries,
            f,
            r[a].section@,
        ),
    ensures
        groups_total(r) == sections_sum(entries, f, group_sections(r)),
    decreases r.len(),
{
    if r.len() > 0 {
        let p = r.drop_last();
        assert forall|a: int| 0 <= a < p.len() implies (#[trigger] p[a]).total_bytes == section_total(
            entries,
            f,
            p[a].section@,
        ) by {
            assert(p[a] == r[a]);
        }
        lemma_groups_total(entries, f, p);
        assert(group_sections(r).drop_last() =~= group_sections(p));
        assert(r[r.len() - 1] == r.last());
    }
}

/// Section summaries add up: the totals of the sections of the cleanup list
/// sum to the total size of the entries that pass the filter, every such
/// entry counted in exactly one section.
pub proof fn law_section_totals_add_up(entries: Seq<CleanupEntry>, f: Seq<usize>, r: Seq<SectionGroup>)
    requires
        strictly_increasing(f),
        forall|k: int| 0 <= k < f.len() ==> #[trigger] f[k] < entries.len(),
        groups_sections(entries, f, r),
    ensures
        groups_total(r) == positions_total(entries, f),
{
    let s = group_sections(r);
    assert forall|a: int| 0 <= a < r.len() implies (#[trigger] r[a]).total_bytes == section_total(
        entries,
        f,
        r[a].section@,
    ) by {
        assert(crate::grouping::is_section_group(entries, f, r[a]));
    }
    lemma_groups_total(entries, f, r);
    assert(s.no_duplicates()) by {
        assert forall|a: int, b: int| 0 <= a < s.len() && 0 <= b < s.len() && a != b implies s[a] != s[b] by {
            if a < b {
                assert(r[a].section@ != r[b].section@);
            } else {
                assert(r[b].section@ != r[a].section@);
            }
        }
    }
    assert forall|k: int| 0 <= k < f.len() implies s.contains(entries[#[trigger] f[k] as int].section@) by {
        assert(has_group(r, entries[f[k] as int].section@));
        let a = choose|a: int| 0 <= a < r.len() && (#[trigger] r[a]).section@ == entries[f[k] as int].section@;
        assert(s[a] == r[a].section@);
    }
    lemma_sections_partition(entries, f, s);
}

/// A blank search with no minimum size lets every entry through.
pub proof fn law_blank_filter_passes_all(e: CleanupEntry)
    ensures
        passes(Seq::<char>::empty(), 0, e),
{
    assert(trim_start(Seq::<char>::empty()) == Seq::<char>::empty());
    assert(trim_end(Seq::<char>::empty()) == Seq::<char>::empty());
}

/// A measured size reads back: after recording `size` for `path`, the table
/// gives `size` for `path`, and what it gives for every other path is unchanged.
pub proof fn law_size_reads_back(paths: Seq<Seq<char>>, sizes: Seq<u64>, path: Seq<char>, size: u64, other: Seq<char>)
    requires
        paths.len() == sizes.len(),
        other != path,
    ensures
        last_size(paths.push(path), sizes.push(size), path) == Some(size),
        last_size(paths.push(path), sizes.push(size), other) == last_size(paths, sizes, other),
{
    assert(paths.push(path).drop_last() == paths);
    assert(sizes.push(size).drop_last() == sizes);
}

proof fn lemma_decimal_digits(n: nat)
    ensures
        decimal(n).len() > 0,
        all_digits(decimal(n)),
        digits_value(decimal(n)) == n,
        is_digit(decimal(n)[0]),
    decreases n,
{
    if n < 10 {
        assert(decimal(n) == seq![digit_char(n)]);
        assert((digit_char(n) as u32) == 48 + n);
        assert(decimal(n).drop_last() == Seq::<char>::empty());
        assert(decimal(n).last() == digit_char(n));
        assert(digits_value(decimal(n)) == digits_value(Seq::<char>::empty()) * 10 + ((digit_char(n) as u32) - 48) as nat);
    } else {
        lemma_decimal_digits(n / 10);
        let d = decimal(n);
        assert(d == decimal(n / 10).push(digit_char(n % 10)));
        assert((digit_char(n % 10) as u32) == 48 + n % 10);
        assert(d.drop_last() == decimal(n / 10));
        assert(d[0] == decimal(n / 10)[0]);
        assert(d.last() == digit_char(n % 10));
        assert((n / 10) * 10 + n % 10 == n) by (nonlinear_arith);
        assert(digits_value(d) == digits_value(decimal(n / 10)) * 10 + ((digit_char(n % 10) as u32) - 48) as nat);
        assert forall|i: int| 0 <= i < d.len() implies is_digit(#[trigger] d[i]) by {
            if i < d.len() - 1 {
                assert(d[i] == decimal(n / 10)[i]);
            }
        }
    }
}

/// Written counts read back: the decimal text of any `u64`, as the size and
/// count labels write it, parses back to the same number.
pub proof fn law_decimal_reads_back(n: u64)
    ensures
        parse_u64(decimal(n as nat)) == Some(n),
{
    lemma_decimal_digits(n as nat);
    let d = decimal(n as nat);
    assert(d[0] != '+') by {
        assert(is_digit(d[0]));
    }
    assert(unsigned_body(d) == d);
}

/// Only selected entries go to the confirmation dialog and the deleter: the
/// entries handed over are exactly the selected ones, in their order.
pub proof fn law_only_selected_handed_over(s: Seq<CleanupEntry>)
    ensures
        forall|e: CleanupEntry| #[trigger] selected_entries(s).contains(e) <==> (s.contains(e) && e.selected),
        forall|k: int| 0 <= k < selected_entries(s).len() ==> (#[trigger] selected_entries(s)[k]).selected,
    decreases s.len(),
{
    if s.len() > 0 {
        let p = s.drop_last();
        law_only_selected_handed_over(p);
        let sp = selected_entries(p);
        let ss = selected_entries(s);
        assert forall|e: CleanupEntry| #[trigger] ss.contains(e) <==> (s.contains(e) && e.selected) by {
            if ss.contains(e) {
                let m = choose|m: int| 0 <= m < ss.len() && ss[m] == e;
                if s.last().selected && m == ss.len() - 1 {
                    assert(s[s.len() - 1] == e);
                } else {
                    assert(sp[m] == e);
                    assert(sp.contains(e));
                    let j = choose|j: int| 0 <= j < p.len() && p[j] == e;
                    assert(s[j] == e);
                }
            }
            if s.contains(e) && e.selected {
                let j = choose|j: int| 0 <= j < s.len() && s[j] == e;
                if j == s.len() - 1 {
                    assert(ss[ss.len() - 1] == e);
                } else {
                    assert(p[j] == e);
                    assert(p.contains(e));
                    assert(sp.contains(e));
                    let m = choose|m: int| 0 <= m < sp.len() && sp[m] == e;
                    assert(ss[m] == e);
                }
            }
        }
        assert forall|k: int| 0 <= k < ss.len() implies (#[trigger] ss[k]).selected by {
            if k < sp.len() {
                assert(ss[k] == sp[k]);
            }
        }
    }
}

/// Every character of `w` is white space.
pub open spec fn all_space(w: Seq<char>) -> bool {
    forall|i: int| 0 <= i < w.len() ==> is_space(#[trigger] w[i])
}

proof fn lemma_trim_start_spaces(w: Seq<char>)
    requires
        all_space(w),
    ensures
        trim_start(w) == Seq::<char>::empty(),
    decreases w.len(),
{
    if w.len() > 0 {
        assert(is_space(w[0]));
        lemma_trim_start_spaces(w.drop_first());
    }
}

proof fn lemma_trim_start_skips(a: Seq<char>, t: Seq<char>)
    requires
        all_space(a),
    ensures
        trim_start(a + t) == trim_start(t),
    decreases a.len(),
{
    if a.len() > 0 {
        assert(is_space(a[0]));
        assert((a + t)[0] == a[0]);
        assert((a + t).drop_first() == a.drop_first() + t);
        lemma_trim_start_skips(a.drop_first(), t);
    } else {
        assert(a + t == t);
    }
}

proof fn lemma_trim_start_append(s: Seq<char>, b: Seq<char>)
    requires
        all_space(b),
    ensures
        trim_start(s).len() > 0 ==> trim_start(s + b) == trim_start(s) + b,
        trim_start(s).len() == 0 ==> trim_start(s + b) == Seq::<char>::empty(),
    decreases s.len(),
{
    if s.len() == 0 {
        assert(s + b == b);
        lemma_trim_start_spaces(b);
    } else {
        assert((s + b)[0] == s[0]);
        if is_space(s[0]) {
            assert((s + b).drop_first() == s.drop_first() + b);
            lemma_trim_start_append(s.drop_first(), b);
        }
    }
}

proof fn lemma_trim_end_skips(t: Seq<char>, b: Seq<char>)
    requires
        all_space(b),
    ensures
        trim_end(t + b) == trim_end(t),
    decreases b.len(),
{
    if b.len() > 0 {
        assert((t + b).last() == b.last());
        assert(is_space(b[b.len() - 1]));
        assert((t + b).drop_last() == t + b.drop_last());
        lemma_trim_end_skips(t, b.drop_last());
    } else {
        assert(t + b == t);
    }
}

/// A size text reads the same with white space around it: trimming, which
/// the size reader does before it lowercases and splits off the unit,
/// removes any white space `a` before and `b` after the text.
pub proof fn law_padding_ignored(a: Seq<char>, s: Seq<char>, b: Seq<char>)
    requires
        all_space(a),
        all_space(b),
    ensures
        trim(a + s + b) == trim(s),
        lowercase(trim(a + s + b)) == lowercase(trim(s)),
{
    assert(a + s + b == a + (s + b));
    lemma_trim_start_skips(a, s + b);
    lemma_trim_start_append(s, b);
    if trim_start(s).len() > 0 {
        lemma_trim_end_skips(trim_start(s), b);
    } else {
        assert(trim_start(s) == Seq::<char>::empty());
    }
}

/// The binary exponent of a size unit as the size reader knows it, in lower
/// case: `b` is 1, `k`/`kb` 2^10, `m`/`mb` 2^20, `g`/`gb` 2^30, `t`/`tb` 2^40.
pub open spec fn unit_exponent(unit: Seq<char>) -> Option<nat> {
    if unit == seq!['b'] {
        Some(0)
    } else if unit == seq!['k'] || unit == seq!['k', 'b'] {
        Some(10)
    } else if unit == seq!['m'] || unit == seq!['m', 'b'] {
        Some(20)
    } else if unit == seq!['g'] || unit == seq!['g', 'b'] {
        Some(30)
    } else if unit == seq!['t'] || unit == seq!['t', 'b'] {
        Some(40)
    } else {
        None
    }
}

/// A written count followed by a unit splits into that count and the unit's
/// exponent, and a bare count has no unit: the size reader scales the count
/// by the unit, or reads the bare count as bytes.
pub proof fn law_unit_suffix_splits(n: nat, unit: Seq<char>)
    ensures
        unit_exponent(unit) matches Some(e) ==> unit_split(decimal(n) + unit) == Some(
            (decimal(n), e),
        ),
        unit_split(decimal(n)) is None,
        trim(decimal(n)) == decimal(n),
{
    lemma_decimal_digits(n);
    let d = decimal(n);
    assert(all_space(Seq::<char>::empty()));
    lemma_trim_start_append(d, Seq::<char>::empty());
    assert(!is_space(d[0])) by {
        assert(is_digit(d[0]));
    }
    assert(trim_start(d) == d);
    assert(!is_space(d.last())) by {
        assert(is_digit(d[d.len() - 1]));
    }
    assert(trim_end(d) == d);
    assert(is_digit(d.last())) by {
        assert(is_digit(d[d.len() - 1]));
    }
    assert(!has_suffix(d, seq!['t', 'b']) && !has_suffix(d, seq!['t']) && !has_suffix(d, seq!['g', 'b'])
        && !has_suffix(d, seq!['g']) && !has_suffix(d, seq!['m', 'b']) && !has_suffix(d, seq!['m'])
        && !has_suffix(d, seq!['k', 'b']) && !has_suffix(d, seq!['k']) && !has_suffix(d, seq!['b'])) by {
        let l = d.len() as int;
        assert(d.subrange(l - 1, l)[0] == d.last());
        if d.len() >= 2 {
            assert(d.subrange(l - 2, l)[1] == d.last());
        }
    }
    if unit_exponent(unit) is Some {
        let t = d + unit;
        let l = t.len() as int;
        assert(t.subrange(0, d.len() as int) == d);
        if unit.len() == 1 {
            assert(t.last() == unit[0]);
            assert(t.subrange(l - 1, l) == unit);
            assert(t[l - 2] == d.last());
            assert(t.subrange(l - 2, l)[0] == t[l - 2]);
            assert(t.subrange(0, l - 1) == d);
        } else {
            assert(t.last() == unit[1]);
            assert(t[l - 2] == unit[0]);
            assert(t.subrange(l - 2, l) == unit);
            assert(t.subrange(l - 1, l)[0] == t.last());
            assert(t.subrange(0, l - 2) == d);
        }
    }
}

} // verus!
