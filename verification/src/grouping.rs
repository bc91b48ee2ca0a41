//! The order in which lists are shown: largest first, and the cleanup list
//! grouped by section with a total per section.
use vstd::prelude::*;

use crate::models::CleanupEntry;
use crate::selection::strictly_increasing;
use crate::text::{chars_of, same_chars};

verus! {

/// Position `x` comes before position `y` when ordered by `keys` from the
/// largest down, equal keys keeping their positions' order (a stable sort).
pub open spec fn precedes(keys: Seq<u64>, x: usize, y: usize) -> bool {
    keys[x as int] > keys[y as int] || (keys[x as int] == keys[y as int] && x < y)
}

/// `s` lists positions from the largest key down, as a stable sort by
/// descending key leaves them.
pub open spec fn largest_first(keys: Seq<u64>, s: Seq<usize>) -> bool {
    forall|a: int, b: int| 0 <= a < b < s.len() ==> precedes(keys, #[trigger] s[a], #[trigger] s[b])
}

/// Every element of `s` is a position in `keys`.
pub open spec fn within(keys: Seq<u64>, s: Seq<usize>) -> bool {
    forall|a: int| 0 <= a < s.len() ==> #[trigger] s[a] < keys.len()
}

/// The sizes of the entries, position by position.
pub open spec fn sizes_of(s: Seq<CleanupEntry>) -> Seq<u64> {
    Seq::new(s.len(), |i: int| s[i].size_bytes)
}

proof fn lemma_insert_contains<A>(s: Seq<A>, p: int, a: A, x: A)
    requires
        0 <= p <= s.len(),
    ensures
        s.insert(p, a).contains(x) <==> (s.contains(x) || x == a),
{
    let t = s.insert(p, a);
    if s.contains(x) {
        let w = choose|w: int| 0 <= w < s.len() && s[w] == x;
        if w < p {
            assert(t[w] == x);
        } else {
            assert(t[w + 1] == x);
        }
    }
    if x == a {
        assert(t[p] == x);
    }
    if t.contains(x) {
        let w = choose|w: int| 0 <= w < t.len() && t[w] == x;
        if w < p {
            assert(s[w] == x);
        } else if w > p {
            assert(s[w - 1] == x);
        }
    }
}

proof fn lemma_push_contains<A>(s: Seq<A>, a: A, x: A)
    ensures
        s.push(a).contains(x) <==> (s.contains(x) || x == a),
{
    lemma_insert_contains(s, s.len() as int, a, x);
    assert(s.insert(s.len() as int, a) =~= s.push(a));
}

/// Inserts position `i` into `list` where the largest-first order puts it.
fn insert_largest_first(keys: &Vec<u64>, list: &mut Vec<usize>, i: usize)
    requires
        largest_first(keys@, old(list)@),
        within(keys@, old(list)@),
        i < keys.len(),
        !old(list)@.contains(i),
    ensures
        largest_first(keys@, final(list)@),
        within(keys@, final(list)@),
        forall|x: usize| #[trigger] final(list)@.contains(x) <==> (old(list)@.contains(x) || x == i),
        final(list)@.len() == old(list)@.len() + 1,
{
    let mut p: usize = 0;
    while p < list.len() && !(keys[i] > keys[list[p]] || (keys[i] == keys[list[p]] && i < list[p]))
        invariant
            0 <= p <= list.len(),
            i < keys.len(),
            within(keys@, list@),
            forall|q: int| 0 <= q < p ==> !precedes(keys@, i, #[trigger] list@[q]),
        decreases list.len() - p,
    {
        p = p + 1;
    }
    let ghost before = list@;
    proof {
        assert forall|q: int| 0 <= q < p implies precedes(keys@, #[trigger] before[q], i) by {
            if before[q] == i {
                assert(before.contains(i));
            }
        }
    }
    list.insert(p, i);
    proof {
        let after = list@;
        assert forall|a: int, b: int| 0 <= a < b < after.len() implies precedes(
            keys@,
            #[trigger] after[a],
            #[trigger] after[b],
        ) by {
            if b < p {
                assert(after[a] == before[a] && after[b] == before[b]);
            } else if b == p {
                assert(after[a] == before[a]);
            } else if a == p {
                assert(after[b] == before[b - 1]);
                if b - 1 > p {
                    assert(precedes(keys@, before[p as int], before[b - 1]));
                }
            } else if a < p {
                assert(after[a] == before[a] && after[b] == before[b - 1]);
            } else {
                assert(after[a] == before[a - 1] && after[b] == before[b - 1]);
            }
        }
        assert forall|x: usize| #[trigger] after.contains(x) <==> (before.contains(x) || x == i) by {
            lemma_insert_contains(before, p as int, i, x);
        }
        assert forall|a: int| 0 <= a < after.len() implies #[trigger] after[a] < keys.len() by {
            if a < p {
                assert(after[a] == before[a]);
            } else if a > p {
                assert(after[a] == before[a - 1]);
            }
        }
    }
}

/// The positions in `members` (increasing) ordered from the largest key down,
/// equal keys in increasing position order.
pub fn order_largest_first(keys: &Vec<u64>, members: &Vec<usize>) -> (r: Vec<usize>)
    requires
        strictly_increasing(members@),
        within(keys@, members@),
    ensures
        largest_first(keys@, r@),
        within(keys@, r@),
        forall|x: usize| #[trigger] r@.contains(x) <==> members@.contains(x),
        r@.len() == members@.len(),
{
    let mut out: Vec<usize> = Vec::new();
    let mut k: usize = 0;
    while k < members.len()
        invariant
            0 <= k <= members.len(),
            strictly_increasing(members@),
            within(keys@, members@),
            largest_first(keys@, out@),
            within(keys@, out@),
            forall|x: usize| #[trigger]
                out@.contains(x) <==> members@.subrange(0, k as int).contains(x),
            out@.len() == k,
        decreases members.len() - k,
    {
        let i = members[k];
        proof {
            if out@.contains(i) {
                let w = choose|w: int| 0 <= w < k && members@.subrange(0, k as int)[w] == i;
                assert(members@[w] < members@[k as int]);
            }
        }
        insert_largest_first(keys, &mut out, i);
        proof {
            assert(members@.subrange(0, k + 1) == members@.subrange(0, k as int).push(i));
            assert forall|x: usize| #[trigger] out@.contains(x) <==> members@.subrange(
                0,
                k + 1,
            ).contains(x) by {
                lemma_push_contains(members@.subrange(0, k as int), i, x);
            }
        }
        k = k + 1;
    }
    assert(members@.subrange(0, members.len() as int) == members@);
    out
}

/// The sizes of the entries as a vector of keys.
pub fn entry_sizes(entries: &Vec<CleanupEntry>) -> (r: Vec<u64>)
    ensures
        r@ == sizes_of(entries@),
{
    let mut out: Vec<u64> = Vec::new();
    let mut i: usize = 0;
    while i < entries.len()
        invariant
            0 <= i <= entries.len(),
            out@ == sizes_of(entries@).subrange(0, i as int),
        decreases entries.len() - i,
    {
        out.push(entries[i].size_bytes);
        i = i + 1;
        assert(sizes_of(entries@).subrange(0, i as int) == sizes_of(entries@).subrange(
            0,
            i - 1,
        ).push(entries@[i - 1].size_bytes));
    }
    assert(sizes_of(entries@).subrange(0, i as int) == sizes_of(entries@));
    out
}

/// The positions of the entries of the section "Large Files", largest first,
/// as the large-files view lists them.
pub fn large_file_order(entries: &Vec<CleanupEntry>) -> (r: Vec<usize>)
    ensures
        largest_first(sizes_of(entries@), r@),
        within(sizes_of(entries@), r@),
        forall|x: usize| #[trigger]
            r@.contains(x) <==> (x < entries.len() && entries@[x as int].section@
                == "Large Files"@),
{
    let large = chars_of("Large Files");
    let mut members: Vec<usize> = Vec::new();
    let mut i: usize = 0;
    while i < entries.len()
        invariant
            0 <= i <= entries.len(),
            large@ == "Large Files"@,
            strictly_increasing(members@),
            forall|k: int| 0 <= k < members.len() ==> #[trigger] members@[k] < i,
            forall|x: usize| #[trigger]
                members@.contains(x) <==> (x < i && entries@[x as int].section@ == "Large Files"@),
        decreases entries.len() - i,
    {
        if same_chars(&chars_of(entries[i].section.as_str()), &large) {
            let ghost before = members@;
            members.push(i);
            proof {
                assert forall|x: usize| #[trigger] members@.contains(x) <==> (x < i + 1
                    && entries@[x as int].section@ == "Large Files"@) by {
                    lemma_push_contains(before, i, x);
                }
            }
        } else {
            proof {
                assert forall|x: usize| #[trigger] members@.contains(x) <==> (x < i + 1
                    && entries@[x as int].section@ == "Large Files"@) by {
                    if x == i && members@.contains(x) {
                        let w = choose|w: int| 0 <= w < members.len() && members@[w] == x;
                    }
                }
            }
        }
        i = i + 1;
    }
    let sizes = entry_sizes(entries);
    order_largest_first(&sizes, &members)
}

/// One section of the cleanup list: its name, the total size of its entries
/// that pass the filter, and their positions, largest first.
pub struct SectionGroup {
    pub section: String,
    pub total_bytes: u64,
    pub indices: Vec<usize>,
}

/// The total size of the entries at the positions in `f` that belong to `section`.
pub open spec fn section_total(entries: Seq<CleanupEntry>, f: Seq<usize>, section: Seq<char>) -> nat
    decreases f.len(),
{
    if f.len() == 0 {
        0
    } else {
        section_total(entries, f.drop_last(), section) + if entries[f.last() as int].section@
            == section {
            entries[f.last() as int].size_bytes as nat
        } else {
            0nat
        }
    }
}

/// The total size of the entries at the positions in `f`.
pub open spec fn positions_total(entries: Seq<CleanupEntry>, f: Seq<usize>) -> nat
    decreases f.len(),
{
    if f.len() == 0 {
        0
    } else {
        positions_total(entries, f.drop_last()) + entries[f.last() as int].size_bytes as nat
    }
}

/// `g` is the group of its section among the entries at positions `f`: it
/// lists exactly those of them in its section, largest first, and their total.
pub open spec fn is_section_group(entries: Seq<CleanupEntry>, f: Seq<usize>, g: SectionGroup) -> bool {
    &&& g.indices@.len() > 0
    &&& forall|x: usize| #[trigger]
        g.indices@.contains(x) <==> (f.contains(x) && entries[x as int].section@ == g.section@)
    &&& largest_first(sizes_of(entries), g.indices@)
    &&& within(sizes_of(entries), g.indices@)
    &&& g.total_bytes == section_total(entries, f, g.section@)
}

/// Some group of `r` is the group of `section`.
pub open spec fn has_group(r: Seq<SectionGroup>, section: Seq<char>) -> bool {
    exists|a: int| 0 <= a < r.len() && (#[trigger] r[a]).section@ == section
}

/// `r` groups the entries at positions `f` by section: one group per
/// section that occurs there, with the sections of the largest totals first.
pub open spec fn groups_sections(entries: Seq<CleanupEntry>, f: Seq<usize>, r: Seq<SectionGroup>) -> bool {
    &&& forall|a: int| 0 <= a < r.len() ==> is_section_group(entries, f, #[trigger] r[a])
    &&& forall|a: int, b: int|
        0 <= a < b < r.len() ==> (#[trigger] r[a]).section@ != (#[trigger] r[b]).section@
    &&& forall|k: int| 0 <= k < f.len() ==> has_group(r, entries[#[trigger] f[k] as int].section@)
    &&& forall|a: int, b: int|
        0 <= a < b < r.len() ==> (#[trigger] r[a]).total_bytes >= (#[trigger] r[b]).total_bytes
}

/// `r` holds a string with the characters `s`.
pub open spec fn has_text(r: Seq<String>, s: Seq<char>) -> bool {
    exists|t: int| 0 <= t < r.len() && (#[trigger] r[t])@ == s
}

/// Some position in `f` holds an entry of section `s`.
pub open spec fn occurs_in(entries: Seq<CleanupEntry>, f: Seq<usize>, s: Seq<char>) -> bool {
    exists|k: int| 0 <= k < f.len() && entries[#[trigger] f[k] as int].section@ == s
}

proof fn lemma_section_within_positions(entries: Seq<CleanupEntry>, f: Seq<usize>, s: Seq<char>)
    requires
        forall|k: int| 0 <= k < f.len() ==> #[trigger] f[k] < entries.len(),
    ensures
        section_total(entries, f, s) <= positions_total(entries, f),
    decreases f.len(),
{
    if f.len() > 0 {
        lemma_section_within_positions(entries, f.drop_last(), s);
    }
}

/// The sections of the entries at positions `f`, each once, in order of
/// first appearance.
fn distinct_sections(entries: &Vec<CleanupEntry>, f: &Vec<usize>) -> (r: Vec<String>)
    requires
        forall|k: int| 0 <= k < f.len() ==> #[trigger] f@[k] < entries.len(),
    ensures
        forall|a: int, b: int| 0 <= a < b < r.len() ==> (#[trigger] r@[a])@ != (#[trigger] r@[b])@,
        forall|k: int| 0 <= k < f.len() ==> has_text(r@, entries@[#[trigger] f@[k] as int].section@),
        forall|t: int| 0 <= t < r.len() ==> occurs_in(entries@, f@, (#[trigger] r@[t])@),
{
    let mut out: Vec<String> = Vec::new();
    let mut k: usize = 0;
    while k < f.len()
        invariant
            0 <= k <= f.len(),
            forall|m: int| 0 <= m < f.len() ==> #[trigger] f@[m] < entries.len(),
            forall|a: int, b: int| 0 <= a < b < out.len() ==> (#[trigger] out@[a])@ != (#[trigger] out@[b])@,
            forall|m: int| 0 <= m < k ==> has_text(out@, entries@[#[trigger] f@[m] as int].section@),
            forall|t: int| 0 <= t < out.len() ==> occurs_in(entries@, f@, (#[trigger] out@[t])@),
        decreases f.len() - k,
    {
        let sec = chars_of(entries[f[k]].section.as_str());
        let mut found = false;
        let mut t: usize = 0;
        while t < out.len()
            invariant
                0 <= t <= out.len(),
                sec@ == entries@[f@[k as int] as int].section@,
                found ==> has_text(out@, sec@),
                !found ==> forall|u: int| 0 <= u < t ==> (#[trigger] out@[u])@ != sec@,
            decreases out.len() - t,
        {
            if same_chars(&chars_of(out[t].as_str()), &sec) {
                found = true;
            }
            t = t + 1;
        }
        let ghost before = out@;
        if !found {
            out.push(entries[f[k]].section.clone());
            proof {
                assert(out@[out.len() - 1]@ == sec@);
                assert(has_text(out@, sec@));
                assert forall|m: int| 0 <= m < k + 1 implies has_text(out@, entries@[#[trigger] f@[m] as int].section@) by {
                    if m < k {
                        let u = choose|u: int| 0 <= u < before.len() && (#[trigger] before[u])@ == entries@[f@[m] as int].section@;
                        assert(out@[u] == before[u]);
                    }
                }
                assert forall|u: int| 0 <= u < out.len() implies occurs_in(entries@, f@, (#[trigger] out@[u])@) by {
                    if u < before.len() {
                        assert(out@[u] == before[u]);
                    } else {
                        let x = f@[k as int];
                        assert(entries@[x as int].section@ == out@[u]@);
                    }
                }
            }
        } else {
            proof {
                assert forall|m: int| 0 <= m < k + 1 implies has_text(out@, entries@[#[trigger] f@[m] as int].section@) by {
                    if m == k {
                        assert(sec@ == entries@[f@[m] as int].section@);
                    }
                }
            }
        }
        k = k + 1;
    }
    out
}

/// The group of `section` among the entries at positions `f`.
fn group_of(entries: &Vec<CleanupEntry>, sizes: &Vec<u64>, f: &Vec<usize>, section: &String) -> (r: SectionGroup)
    requires
        sizes@ == sizes_of(entries@),
        strictly_increasing(f@),
        forall|k: int| 0 <= k < f.len() ==> #[trigger] f@[k] < entries.len(),
        positions_total(entries@, f@) <= u64::MAX,
        occurs_in(entries@, f@, section@),
    ensures
        r.section@ == section@,
        is_section_group(entries@, f@, r),
{
    let sec = chars_of(section.as_str());
    let mut members: Vec<usize> = Vec::new();
    let mut total: u64 = 0;
    let mut k: usize = 0;
    proof {
        lemma_section_within_positions(entries@, f@, section@);
    }
    while k < f.len()
        invariant
            0 <= k <= f.len(),
            sec@ == section@,
            strictly_increasing(f@),
            forall|m: int| 0 <= m < f.len() ==> #[trigger] f@[m] < entries.len(),
            section_total(entries@, f@, section@) <= u64::MAX,
            strictly_increasing(members@),
            forall|m: int| 0 <= m < members.len() ==> #[trigger] members@[m] < entries.len(),
            forall|m: int| 0 <= m < members.len() ==> exists|j: int| 0 <= j < k && #[trigger] members@[m] == f@[j],
            forall|x: usize| #[trigger]
                members@.contains(x) <==> (f@.subrange(0, k as int).contains(x)
                    && entries@[x as int].section@ == section@),
            total == section_total(entries@, f@.subrange(0, k as int), section@),
        decreases f.len() - k,
    {
        let i = f[k];
        let ghost pre = f@.subrange(0, k as int);
        let ghost nxt = f@.subrange(0, k + 1);
        assert(nxt.drop_last() == pre);
        assert(nxt == pre.push(i));
        proof {
            lemma_section_prefix(entries@, f@, k + 1, section@);
        }
        let ghost before = members@;
        if same_chars(&chars_of(entries[i].section.as_str()), &sec) {
            total = total + entries[i].size_bytes;
            members.push(i);
            proof {
                assert forall|a: int, b: int| 0 <= a < b < members.len() implies members@[a] < members@[b] by {
                    if b == members.len() - 1 {
                        let j = choose|j: int| 0 <= j < k && #[trigger] before[a] == f@[j];
                        assert(f@[j] < f@[k as int]);
                    }
                }
                assert forall|m: int| 0 <= m < members.len() implies exists|j: int| 0 <= j < k + 1 && #[trigger] members@[m] == f@[j] by {
                    if m < before.len() {
                        let j = choose|j: int| 0 <= j < k && #[trigger] before[m] == f@[j];
                        assert(members@[m] == f@[j]);
                    } else {
                        assert(members@[m] == f@[k as int]);
                    }
                }
            }
        }
        proof {
            assert forall|x: usize| #[trigger] members@.contains(x) <==> (nxt.contains(x)
                && entries@[x as int].section@ == section@) by {
                lemma_push_contains(pre, i, x);
                lemma_push_contains(before, i, x);
            }
        }
        k = k + 1;
    }
    assert(f@.subrange(0, f.len() as int) == f@);
    proof {
        let k0 = choose|k0: int| 0 <= k0 < f.len() && entries@[#[trigger] f@[k0] as int].section@ == section@;
        assert(f@.contains(f@[k0]));
        assert(members@.contains(f@[k0]));
    }
    let ordered = order_largest_first(sizes, &members);
    assert(ordered@.len() > 0) by {
        let k0 = choose|k0: int| 0 <= k0 < f.len() && entries@[#[trigger] f@[k0] as int].section@ == section@;
        assert(f@.contains(f@[k0]));
        assert(members@.contains(f@[k0]));
        assert(ordered@.contains(f@[k0]));
    }
    SectionGroup { section: section.clone(), total_bytes: total, indices: ordered }
}

proof fn lemma_section_prefix(entries: Seq<CleanupEntry>, f: Seq<usize>, k: int, s: Seq<char>)
    requires
        0 <= k <= f.len(),
    ensures
        section_total(entries, f.subrange(0, k), s) <= section_total(entries, f, s),
    decreases f.len() - k,
{
    if k < f.len() {
        lemma_section_prefix(entries, f.drop_last(), k, s);
        assert(f.drop_last().subrange(0, k) == f.subrange(0, k));
    } else {
        assert(f.subrange(0, k) == f);
    }
}

proof fn lemma_insert_group(
    entries: Seq<CleanupEntry>,
    f: Seq<usize>,
    sections: Seq<String>,
    t: int,
    before: Seq<SectionGroup>,
    g: SectionGroup,
    p: int,
)
    requires
        0 <= t < sections.len(),
        0 <= p <= before.len(),
        forall|a: int, b: int| 0 <= a < b < sections.len() ==> (#[trigger] sections[a])@ != (#[trigger] sections[b])@,
        forall|a: int| 0 <= a < before.len() ==> is_section_group(entries, f, #[trigger] before[a]),
        forall|a: int| 0 <= a < before.len() ==> has_text(sections.subrange(0, t), (#[trigger] before[a]).section@),
        forall|u: int| 0 <= u < t ==> has_group(before, (#[trigger] sections[u])@),
        forall|a: int, b: int| 0 <= a < b < before.len() ==> (#[trigger] before[a]).section@ != (#[trigger] before[b]).section@,
        forall|a: int, b: int| 0 <= a < b < before.len() ==> (#[trigger] before[a]).total_bytes >= (#[trigger] before[b]).total_bytes,
        is_section_group(entries, f, g),
        g.section@ == sections[t]@,
        forall|q: int| 0 <= q < p ==> (#[trigger] before[q]).total_bytes >= g.total_bytes,
        p < before.len() ==> before[p].total_bytes < g.total_bytes,
    ensures
        ({
            let after = before.insert(p, g);
            &&& forall|a: int| 0 <= a < after.len() ==> is_section_group(entries, f, #[trigger] after[a])
            &&& forall|a: int| 0 <= a < after.len() ==> has_text(sections.subrange(0, t + 1), (#[trigger] after[a]).section@)
            &&& forall|u: int| 0 <= u < t + 1 ==> has_group(after, (#[trigger] sections[u])@)
            &&& forall|a: int, b: int| 0 <= a < b < after.len() ==> (#[trigger] after[a]).section@ != (#[trigger] after[b]).section@
            &&& forall|a: int, b: int| 0 <= a < b < after.len() ==> (#[trigger] after[a]).total_bytes >= (#[trigger] after[b]).total_bytes
        }),
{
    let after = before.insert(p, g);
    let pre = sections.subrange(0, t);
    let nxt = sections.subrange(0, t + 1);
    assert forall|a: int| 0 <= a < before.len() implies (#[trigger] before[a]).section@ != g.section@ by {
        let u = choose|u: int| 0 <= u < pre.len() && (#[trigger] pre[u])@ == before[a].section@;
        assert(pre[u] == sections[u]);
    }
    assert forall|a: int| 0 <= a < after.len() implies is_section_group(entries, f, #[trigger] after[a]) by {
        if a < p { assert(after[a] == before[a]); } else if a > p { assert(after[a] == before[a - 1]); }
    }
    assert forall|a: int| 0 <= a < after.len() implies has_text(nxt, (#[trigger] after[a]).section@) by {
        if a == p {
            assert(nxt[t] == sections[t]);
        } else {
            let b = if a < p { a } else { a - 1 };
            assert(after[a] == before[b]);
            let u = choose|u: int| 0 <= u < pre.len() && (#[trigger] pre[u])@ == before[b].section@;
            assert(nxt[u] == pre[u]);
        }
    }
    assert forall|u: int| 0 <= u < t + 1 implies has_group(after, (#[trigger] sections[u])@) by {
        if u < t {
            let a = choose|a: int| 0 <= a < before.len() && (#[trigger] before[a]).section@ == sections[u]@;
            if a < p { assert(after[a] == before[a]); } else { assert(after[a + 1] == before[a]); }
        } else {
            assert(after[p] == g);
        }
    }
    assert forall|a: int, b: int| 0 <= a < b < after.len() implies (#[trigger] after[a]).section@ != (#[trigger] after[b]).section@ by {
        if b < p { assert(after[a] == before[a] && after[b] == before[b]); }
        else if b == p { assert(after[a] == before[a]); }
        else if a == p { assert(after[b] == before[b - 1]); }
        else if a < p { assert(after[a] == before[a] && after[b] == before[b - 1]); }
        else { assert(after[a] == before[a - 1] && after[b] == before[b - 1]); }
    }
    assert forall|a: int, b: int| 0 <= a < b < after.len() implies (#[trigger] after[a]).total_bytes >= (#[trigger] after[b]).total_bytes by {
        if b < p { assert(after[a] == before[a] && after[b] == before[b]); }
        else if b == p { assert(after[a] == before[a]); }
        else if a == p {
            assert(after[b] == before[b - 1]);
            if b - 1 > p { assert(before[p].total_bytes >= before[b - 1].total_bytes); }
        }
        else if a < p { assert(after[a] == before[a] && after[b] == before[b - 1]); }
        else { assert(after[a] == before[a - 1] && after[b] == before[b - 1]); }
    }
}

/// Whether the sizes of the entries at positions `f` sum to no more than
/// `u64::MAX`.
pub fn positions_fit(entries: &Vec<CleanupEntry>, f: &Vec<usize>) -> (r: bool)
    requires
        forall|k: int| 0 <= k < f.len() ==> #[trigger] f@[k] < entries.len(),
    ensures
        r == (positions_total(entries@, f@) <= u64::MAX),
{
    let mut total: u64 = 0;
    let mut k: usize = 0;
    while k < f.len()
        invariant
            0 <= k <= f.len(),
            forall|m: int| 0 <= m < f.len() ==> #[trigger] f@[m] < entries.len(),
            total == positions_total(entries@, f@.subrange(0, k as int)),
        decreases f.len() - k,
    {
        let ghost nxt = f@.subrange(0, k + 1);
        assert(nxt.drop_last() == f@.subrange(0, k as int));
        let size = entries[f[k]].size_bytes;
        if size > u64::MAX - total {
            proof {
                lemma_positions_prefix_grows(entries@, f@, k + 1);
            }
            return false;
        }
        total = total + size;
        k = k + 1;
    }
    assert(f@.subrange(0, f.len() as int) == f@);
    true
}

proof fn lemma_positions_prefix_grows(entries: Seq<CleanupEntry>, f: Seq<usize>, n: int)
    requires
        0 <= n <= f.len(),
    ensures
        positions_total(entries, f.subrange(0, n)) <= positions_total(entries, f),
    decreases f.len() - n,
{
    if n < f.len() {
        lemma_positions_prefix_grows(entries, f, n + 1);
        assert(f.subrange(0, n + 1).drop_last() == f.subrange(0, n));
    } else {
        assert(f.subrange(0, n) == f);
    }
}

/// The cleanup list's sections for the entries at positions `filtered`
/// (increasing, as `EntryFilter::filtered_indices` gives them): each section
/// once with its total and its entries largest first, the sections with the
/// largest totals first.
pub fn section_groups(entries: &Vec<CleanupEntry>, filtered: &Vec<usize>) -> (r: Vec<SectionGroup>)
    requires
        strictly_increasing(filtered@),
        forall|k: int| 0 <= k < filtered.len() ==> #[trigger] filtered@[k] < entries.len(),
        positions_total(entries@, filtered@) <= u64::MAX,
    ensures
        groups_sections(entries@, filtered@, r@),
{
    let sizes = entry_sizes(entries);
    let sections = distinct_sections(entries, filtered);
    let mut out: Vec<SectionGroup> = Vec::new();
    let mut t: usize = 0;
    while t < sections.len()
        invariant
            0 <= t <= sections.len(),
            sizes@ == sizes_of(entries@),
            strictly_increasing(filtered@),
            forall|k: int| 0 <= k < filtered.len() ==> #[trigger] filtered@[k] < entries.len(),
            positions_total(entries@, filtered@) <= u64::MAX,
            forall|a: int, b: int| 0 <= a < b < sections.len() ==> (#[trigger] sections@[a])@ != (#[trigger] sections@[b])@,
            forall|u: int| 0 <= u < sections.len() ==> occurs_in(entries@, filtered@, (#[trigger] sections@[u])@),
            forall|a: int| 0 <= a < out.len() ==> is_section_group(entries@, filtered@, #[trigger] out@[a]),
            forall|a: int| 0 <= a < out.len() ==> has_text(sections@.subrange(0, t as int), (#[trigger] out@[a]).section@),
            forall|u: int| 0 <= u < t ==> has_group(out@, (#[trigger] sections@[u])@),
            forall|a: int, b: int| 0 <= a < b < out.len() ==> (#[trigger] out@[a]).section@ != (#[trigger] out@[b]).section@,
            forall|a: int, b: int| 0 <= a < b < out.len() ==> (#[trigger] out@[a]).total_bytes >= (#[trigger] out@[b]).total_bytes,
        decreases sections.len() - t,
    {
        assert(occurs_in(entries@, filtered@, sections@[t as int]@));
        let g = group_of(entries, &sizes, filtered, &sections[t]);
        let mut p: usize = 0;
        while p < out.len() && out[p].total_bytes >= g.total_bytes
            invariant
                0 <= p <= out.len(),
                forall|q: int| 0 <= q < p ==> (#[trigger] out@[q]).total_bytes >= g.total_bytes,
            decreases out.len() - p,
        {
            p = p + 1;
        }
        let ghost before = out@;
        proof {
            lemma_insert_group(entries@, filtered@, sections@, t as int, before, g, p as int);
        }
        out.insert(p, g);
        t = t + 1;
    }
    proof {
        assert forall|k: int| 0 <= k < filtered.len() implies has_group(out@, entries@[#[trigger] filtered@[k] as int].section@) by {
            let x = filtered@[k];
            let _ = entries@[x as int];
            let u = choose|u: int| 0 <= u < sections.len() && (#[trigger] sections@[u])@ == entries@[x as int].section@;
            assert(has_group(out@, sections@[u]@));
        }
    }
    out
}

} // verus!
