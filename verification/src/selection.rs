//! Totals over the found entries, the search filter, and what the selection
//! buttons do to the entries.
use vstd::prelude::*;

use crate::models::{CleanupEntry, OrphanConfidence};
use crate::text::{
    chars_contain, chars_of, has_infix, lowercase, push_decimal, push_str, string_from_chars,
    to_lower, trim, trimmed, decimal,
};

verus! {

/// The sum of the sizes of `s`.
pub open spec fn total_size(s: Seq<CleanupEntry>) -> nat
    decreases s.len(),
{
    if s.len() == 0 {
        0
    } else {
        total_size(s.drop_last()) + s.last().size_bytes as nat
    }
}

/// The sum of the sizes of the selected entries of `s`.
pub open spec fn selected_size(s: Seq<CleanupEntry>) -> nat
    decreases s.len(),
{
    if s.len() == 0 {
        0
    } else {
        selected_size(s.drop_last()) + if s.last().selected {
            s.last().size_bytes as nat
        } else {
            0nat
        }
    }
}

/// The number of selected entries of `s`.
pub open spec fn selected_count(s: Seq<CleanupEntry>) -> nat
    decreases s.len(),
{
    if s.len() == 0 {
        0
    } else {
        selected_count(s.drop_last()) + if s.last().selected {
            1nat
        } else {
            0nat
        }
    }
}

/// The selected entries of `s`, in order.
pub open spec fn selected_entries(s: Seq<CleanupEntry>) -> Seq<CleanupEntry>
    decreases s.len(),
{
    if s.len() == 0 {
        s
    } else if s.last().selected {
        selected_entries(s.drop_last()).push(s.last())
    } else {
        selected_entries(s.drop_last())
    }
}

/// `a` and `b` are the same entry but perhaps for whether it is selected.
pub open spec fn same_but_selection(a: CleanupEntry, b: CleanupEntry) -> bool {
    &&& a.id == b.id
    &&& a.section == b.section
    &&& a.label == b.label
    &&& a.path == b.path
    &&& a.size_bytes == b.size_bytes
    &&& a.orphan_confidence == b.orphan_confidence
}

/// The selected entries never weigh more than all of them.
pub proof fn law_selected_within_total(s: Seq<CleanupEntry>)
    ensures
        selected_size(s) <= total_size(s),
        selected_count(s) <= s.len(),
    decreases s.len(),
{
    if s.len() > 0 {
        law_selected_within_total(s.drop_last());
    }
}

proof fn lemma_prefix_step(s: Seq<CleanupEntry>, i: int)
    requires
        0 <= i < s.len(),
    ensures
        s.subrange(0, i + 1).drop_last() == s.subrange(0, i),
        s.subrange(0, i + 1).last() == s[i],
{
    assert(s.subrange(0, i + 1).drop_last() =~= s.subrange(0, i));
}

/// Whether the sizes of all entries add up to at most `u64::MAX`.
pub fn sizes_fit(entries: &Vec<CleanupEntry>) -> (r: bool)
    ensures
        r == (total_size(entries@) <= u64::MAX),
{
    let mut sum: u64 = 0;
    let mut i: usize = 0;
    while i < entries.len()
        invariant
            0 <= i <= entries.len(),
            sum == total_size(entries@.subrange(0, i as int)),
        decreases entries.len() - i,
    {
        proof {
            lemma_prefix_step(entries@, i as int);
        }
        let sz = entries[i].size_bytes;
        if sum > u64::MAX - sz {
            proof {
                lemma_total_prefix(entries@, i + 1);
            }
            return false;
        }
        sum = sum + sz;
        i = i + 1;
    }
    assert(entries@.subrange(0, i as int) == entries@);
    true
}

proof fn lemma_total_prefix(s: Seq<CleanupEntry>, k: int)
    requires
        0 <= k <= s.len(),
    ensures
        total_size(s.subrange(0, k)) <= total_size(s),
    decreases s.len() - k,
{
    if k < s.len() {
        lemma_total_prefix(s.drop_last(), k);
        assert(s.drop_last().subrange(0, k) == s.subrange(0, k));
    } else {
        assert(s.subrange(0, k) == s);
    }
}

/// The total size of all entries.
pub fn total_bytes(entries: &Vec<CleanupEntry>) -> (r: u64)
    requires
        total_size(entries@) <= u64::MAX,
    ensures
        r == total_size(entries@),
{
    let mut sum: u64 = 0;
    let mut i: usize = 0;
    while i < entries.len()
        invariant
            0 <= i <= entries.len(),
            total_size(entries@) <= u64::MAX,
            sum == total_size(entries@.subrange(0, i as int)),
        decreases entries.len() - i,
    {
        proof {
            lemma_prefix_step(entries@, i as int);
            lemma_total_prefix(entries@, i + 1);
        }
        sum = sum + entries[i].size_bytes;
        i = i + 1;
    }
    assert(entries@.subrange(0, i as int) == entries@);
    sum
}

proof fn lemma_selected_prefix(s: Seq<CleanupEntry>, k: int)
    requires
        0 <= k <= s.len(),
    ensures
        selected_size(s.subrange(0, k)) <= selected_size(s),
    decreases s.len() - k,
{
    if k < s.len() {
        lemma_selected_prefix(s.drop_last(), k);
        assert(s.drop_last().subrange(0, k) == s.subrange(0, k));
    } else {
        assert(s.subrange(0, k) == s);
    }
}

/// The total size of the selected entries.
pub fn selected_bytes(entries: &Vec<CleanupEntry>) -> (r: u64)
    requires
        selected_size(entries@) <= u64::MAX,
    ensures
        r == selected_size(entries@),
{
    let mut sum: u64 = 0;
    let mut i: usize = 0;
    while i < entries.len()
        invariant
            0 <= i <= entries.len(),
            selected_size(entries@) <= u64::MAX,
            sum == selected_size(entries@.subrange(0, i as int)),
        decreases entries.len() - i,
    {
        proof {
            lemma_prefix_step(entries@, i as int);
            lemma_selected_prefix(entries@, i + 1);
        }
        if entries[i].selected {
            sum = sum + entries[i].size_bytes;
        }
        i = i + 1;
    }
    assert(entries@.subrange(0, i as int) == entries@);
    sum
}

/// How many entries are selected.
pub fn count_selected(entries: &Vec<CleanupEntry>) -> (r: usize)
    ensures
        r == selected_count(entries@),
{
    let mut n: usize = 0;
    let mut i: usize = 0;
    while i < entries.len()
        invariant
            0 <= i <= entries.len(),
            n == selected_count(entries@.subrange(0, i as int)),
        decreases entries.len() - i,
    {
        proof {
            lemma_prefix_step(entries@, i as int);
            law_selected_within_total(entries@.subrange(0, i as int));
        }
        if entries[i].selected {
            n = n + 1;
        }
        i = i + 1;
    }
    assert(entries@.subrange(0, i as int) == entries@);
    n
}

/// Copies of the selected entries, in order.
pub fn selected_copies(entries: &Vec<CleanupEntry>) -> (r: Vec<CleanupEntry>)
    ensures
        r@ == selected_entries(entries@),
{
    let mut out: Vec<CleanupEntry> = Vec::new();
    let mut i: usize = 0;
    while i < entries.len()
        invariant
            0 <= i <= entries.len(),
            out@ == selected_entries(entries@.subrange(0, i as int)),
        decreases entries.len() - i,
    {
        proof {
            lemma_prefix_step(entries@, i as int);
        }
        if entries[i].selected {
            out.push(entries[i].duplicate());
        }
        i = i + 1;
    }
    assert(entries@.subrange(0, i as int) == entries@);
    out
}

/// The search box and the minimum size (in bytes) of the cleanup list.
pub struct EntryFilter {
    pub search: String,
    pub min_bytes: u64,
}

/// Whether `e` passes the filter: it is at least `min_bytes` large and, when
/// the search text is not blank, its label, path or section contains the
/// search text, compared in lower case.
pub open spec fn passes(search: Seq<char>, min_bytes: u64, e: CleanupEntry) -> bool {
    &&& e.size_bytes >= min_bytes
    &&& (trim(search).len() == 0 || has_infix(lowercase(e.label@), lowercase(search)) || has_infix(
        lowercase(e.path@),
        lowercase(search),
    ) || has_infix(lowercase(e.section@), lowercase(search)))
}

impl EntryFilter {
    /// A filter that lets every entry through.
    pub fn new() -> (r: EntryFilter)
        ensures
            r.search@ == Seq::<char>::empty(),
            r.min_bytes == 0,
    {
        EntryFilter { search: String::new(), min_bytes: 0 }
    }

    /// Whether `e` passes this filter.
    pub fn matches(&self, e: &CleanupEntry) -> (r: bool)
        ensures
            r == passes(self.search@, self.min_bytes, *e),
    {
        if e.size_bytes < self.min_bytes {
            return false;
        }
        let raw = chars_of(self.search.as_str());
        let t = trimmed(&raw);
        if t.len() == 0 {
            return true;
        }
        let q = to_lower(self.search.as_str());
        let qc = chars_of(q.as_str());
        let label = to_lower(e.label.as_str());
        if chars_contain(&chars_of(label.as_str()), &qc) {
            return true;
        }
        let path = to_lower(e.path.as_str());
        if chars_contain(&chars_of(path.as_str()), &qc) {
            return true;
        }
        let section = to_lower(e.section.as_str());
        chars_contain(&chars_of(section.as_str()), &qc)
    }

    /// The positions of the entries that pass this filter, in increasing order.
    pub fn filtered_indices(&self, entries: &Vec<CleanupEntry>) -> (r: Vec<usize>)
        ensures
            strictly_increasing(r@),
            forall|k: int| 0 <= k < r.len() ==> #[trigger] r@[k] < entries.len(),
            forall|i: int|
                0 <= i < entries.len() ==> (r@.contains(i as usize) <==> passes(
                    self.search@,
                    self.min_bytes,
                    #[trigger] entries@[i],
                )),
    {
        let mut out: Vec<usize> = Vec::new();
        let mut i: usize = 0;
        while i < entries.len()
            invariant
                0 <= i <= entries.len(),
                strictly_increasing(out@),
                forall|k: int| 0 <= k < out.len() ==> #[trigger] out@[k] < i,
                forall|j: int|
                    0 <= j < i ==> (out@.contains(j as usize) <==> passes(
                        self.search@,
                        self.min_bytes,
                        #[trigger] entries@[j],
                    )),
            decreases entries.len() - i,
        {
            let ghost before = out@;
            if self.matches(&entries[i]) {
                out.push(i);
                assert(out@[out.len() - 1] == i);
                assert forall|j: int| 0 <= j < i implies (#[trigger] out@.contains(j as usize) <==> before.contains(
                    j as usize,
                )) by {
                    if before.contains(j as usize) {
                        let w = choose|w: int| 0 <= w < before.len() && before[w] == j as usize;
                        assert(out@[w] == j as usize);
                    }
                    if out@.contains(j as usize) {
                        let w = choose|w: int| 0 <= w < out.len() && out@[w] == j as usize;
                        if w < before.len() {
                            assert(before[w] == j as usize);
                        }
                    }
                }
            } else {
                assert(!out@.contains(i));
            }
            i = i + 1;
        }
        out
    }
}

/// `s` is strictly increasing.
pub open spec fn strictly_increasing(s: Seq<usize>) -> bool {
    forall|a: int, b: int| 0 <= a < b < s.len() ==> s[a] < s[b]
}

/// `after` is `before` with the entries at the positions in `chosen` for which
/// `pick` holds selected, and nothing else changed.
pub open spec fn selects(
    before: Seq<CleanupEntry>,
    after: Seq<CleanupEntry>,
    chosen: Seq<usize>,
    pick: spec_fn(CleanupEntry) -> bool,
) -> bool {
    &&& after.len() == before.len()
    &&& forall|j: int|
        0 <= j < before.len() ==> {
            &&& same_but_selection(#[trigger] after[j], before[j])
            &&& after[j].selected == (before[j].selected || (chosen.contains(j as usize) && pick(
                before[j],
            )))
        }
}

/// Entries of at least this size are picked by "Select >=100 MB".
pub const LARGE_SELECTION_BYTES: u64 = 104857600;

/// An entry that the high-confidence button picks.
pub open spec fn is_high_orphan(e: CleanupEntry) -> bool {
    e.orphan_confidence == Some(OrphanConfidence::High)
}

/// An entry that the 100 MB button picks.
pub open spec fn is_large_pick(e: CleanupEntry) -> bool {
    e.size_bytes >= LARGE_SELECTION_BYTES
}

fn mark_selected(entries: &mut Vec<CleanupEntry>, i: usize)
    requires
        i < old(entries).len(),
    ensures
        final(entries).len() == old(entries).len(),
        forall|j: int|
            0 <= j < old(entries).len() && j != i ==> #[trigger] final(entries)@[j] == old(
                entries,
            )@[j],
        same_but_selection(final(entries)@[i as int], old(entries)@[i as int]),
        final(entries)@[i as int].selected,
{
    let mut e = entries[i].duplicate();
    e.selected = true;
    entries.set(i, e);
}

/// The selection kinds of the footer's buttons.
pub enum Pick {
    Every,
    AtLeast100Mib,
    HighConfidenceOrphans,
}

/// What a selection kind picks.
pub open spec fn picks(p: Pick) -> spec_fn(CleanupEntry) -> bool {
    match p {
        Pick::Every => |e: CleanupEntry| true,
        Pick::AtLeast100Mib => |e: CleanupEntry| is_large_pick(e),
        Pick::HighConfidenceOrphans => |e: CleanupEntry| is_high_orphan(e),
    }
}

/// Selects the entries at the positions in `chosen` that the kind `pick`
/// takes: all of them ("Select all (filtered)"), those of at least 100 MiB
/// ("Select >=100 MB"), or the high-confidence orphans. No entry is
/// deselected and nothing else changes.
pub fn select_chosen(entries: &mut Vec<CleanupEntry>, chosen: &Vec<usize>, pick: Pick)
    requires
        forall|k: int| 0 <= k < chosen.len() ==> #[trigger] chosen@[k] < old(entries).len(),
    ensures
        selects(old(entries)@, final(entries)@, chosen@, picks(pick)),
        final(entries).len() == old(entries).len(),
        forall|j: int|
            0 <= j < old(entries).len() ==> (#[trigger] final(entries)@[j]).selected == (old(
                entries,
            )@[j].selected || (chosen@.contains(j as usize) && pick_takes(pick, old(entries)@[j]))),
{
    let ghost orig = entries@;
    let mut k: usize = 0;
    while k < chosen.len()
        invariant
            0 <= k <= chosen.len(),
            forall|m: int| 0 <= m < chosen.len() ==> #[trigger] chosen@[m] < orig.len(),
            orig.len() == entries.len(),
            selects(orig, entries@, chosen@.subrange(0, k as int), picks(pick)),
        decreases chosen.len() - k,
    {
        let i = chosen[k];
        let take = match pick {
            Pick::Every => true,
            Pick::AtLeast100Mib => entries[i].size_bytes >= LARGE_SELECTION_BYTES,
            Pick::HighConfidenceOrphans => match entries[i].orphan_confidence {
                Some(OrphanConfidence::High) => true,
                _ => false,
            },
        };
        assert(take == picks(pick)(orig[i as int]));
        let ghost prev = entries@;
        if take {
            mark_selected(entries, i);
        }
        let ghost done = chosen@.subrange(0, k + 1);
        assert(done == chosen@.subrange(0, k as int).push(i));
        assert forall|j: int| 0 <= j < orig.len() implies {
            &&& same_but_selection(#[trigger] entries@[j], orig[j])
            &&& entries@[j].selected == (orig[j].selected || (done.contains(j as usize) && picks(
                pick,
            )(orig[j])))
        } by {
            let old_done = chosen@.subrange(0, k as int);
            assert(0 <= j < entries.len());
            assert((j as usize) as int == j);
            assert(done.contains(j as usize) <==> (old_done.contains(j as usize) || j == i)) by {
                if done.contains(j as usize) {
                    let w = choose|w: int| 0 <= w < done.len() && done[w] == j as usize;
                    if w < old_done.len() {
                        assert(old_done[w] == j as usize);
                    }
                }
                if old_done.contains(j as usize) {
                    let w = choose|w: int| 0 <= w < old_done.len() && old_done[w] == j as usize;
                    assert(done[w] == j as usize);
                }
                if j == i {
                    assert(done[k as int] == i);
                }
            }
        }
        k = k + 1;
    }
    assert(chosen@.subrange(0, chosen.len() as int) == chosen@);
}

/// Deselects every entry and changes nothing else.
pub fn clear_selection(entries: &mut Vec<CleanupEntry>)
    ensures
        final(entries).len() == old(entries).len(),
        forall|j: int|
            0 <= j < old(entries).len() ==> same_but_selection(
                #[trigger] final(entries)@[j],
                old(entries)@[j],
            ) && !final(entries)@[j].selected,
        selected_count(final(entries)@) == 0,
        selected_size(final(entries)@) == 0,
{
    let ghost orig = entries@;
    let mut i: usize = 0;
    while i < entries.len()
        invariant
            0 <= i <= entries.len(),
            entries.len() == orig.len(),
            forall|j: int|
                0 <= j < orig.len() ==> same_but_selection(#[trigger] entries@[j], orig[j]),
            forall|j: int| 0 <= j < i ==> !(#[trigger] entries@[j]).selected,
        decreases entries.len() - i,
    {
        let mut e = entries[i].duplicate();
        e.selected = false;
        entries.set(i, e);
        i = i + 1;
    }
    proof {
        lemma_none_selected(entries@);
    }
}

/// With nothing selected, the selected count and size are zero.
pub proof fn lemma_none_selected(s: Seq<CleanupEntry>)
    requires
        forall|j: int| 0 <= j < s.len() ==> !(#[trigger] s[j]).selected,
    ensures
        selected_count(s) == 0,
        selected_size(s) == 0,
        selected_entries(s) == Seq::<CleanupEntry>::empty(),
    decreases s.len(),
{
    if s.len() > 0 {
        assert(!s[s.len() - 1].selected);
        lemma_none_selected(s.drop_last());
    }
}

/// The caption of the log button: `"Log"`, or `"Log (n)"` once there are messages.
pub fn log_button_label(message_count: usize) -> (r: String)
    ensures
        message_count == 0 ==> r@ == "Log"@,
        message_count > 0 ==> r@ == "Log ("@ + decimal(message_count as nat) + ")"@,
{
    let mut out: Vec<char> = Vec::new();
    push_str(&mut out, "Log");
    if message_count > 0 {
        out = Vec::new();
        push_str(&mut out, "Log (");
        push_decimal(&mut out, message_count as u64);
        push_str(&mut out, ")");
    }
    string_from_chars(&out)
}

/// Sets whether every entry is selected, and changes nothing else.
pub fn set_all_selected(entries: &mut Vec<CleanupEntry>, selected: bool)
    ensures
        final(entries).len() == old(entries).len(),
        forall|j: int|
            0 <= j < old(entries).len() ==> same_but_selection(
                #[trigger] final(entries)@[j],
                old(entries)@[j],
            ) && final(entries)@[j].selected == selected,
{
    let ghost orig = entries@;
    let mut i: usize = 0;
    while i < entries.len()
        invariant
            0 <= i <= entries.len(),
            entries.len() == orig.len(),
            forall|j: int|
                0 <= j < orig.len() ==> same_but_selection(#[trigger] entries@[j], orig[j]),
            forall|j: int| 0 <= j < i ==> (#[trigger] entries@[j]).selected == selected,
        decreases entries.len() - i,
    {
        let mut e = entries[i].duplicate();
        e.selected = selected;
        entries.set(i, e);
        i = i + 1;
    }
}

/// Sets whether the entries at the positions in `chosen` are selected, as
/// the "select all in section" box does, and changes nothing else.
pub fn set_selected_at(entries: &mut Vec<CleanupEntry>, chosen: &Vec<usize>, selected: bool)
    requires
        forall|k: int| 0 <= k < chosen.len() ==> #[trigger] chosen@[k] < old(entries).len(),
    ensures
        final(entries).len() == old(entries).len(),
        forall|j: int|
            0 <= j < old(entries).len() ==> same_but_selection(
                #[trigger] final(entries)@[j],
                old(entries)@[j],
            ) && final(entries)@[j].selected == if chosen@.contains(j as usize) {
                selected
            } else {
                old(entries)@[j].selected
            },
{
    let ghost orig = entries@;
    let mut k: usize = 0;
    while k < chosen.len()
        invariant
            0 <= k <= chosen.len(),
            forall|m: int| 0 <= m < chosen.len() ==> #[trigger] chosen@[m] < orig.len(),
            entries.len() == orig.len(),
            forall|j: int|
                0 <= j < orig.len() ==> same_but_selection(#[trigger] entries@[j], orig[j])
                    && entries@[j].selected == if chosen@.subrange(0, k as int).contains(j as usize) {
                    selected
                } else {
                    orig[j].selected
                },
        decreases chosen.len() - k,
    {
        let i = chosen[k];
        let mut e = entries[i].duplicate();
        e.selected = selected;
        entries.set(i, e);
        proof {
            let done = chosen@.subrange(0, k + 1);
            let old_done = chosen@.subrange(0, k as int);
            assert(done == old_done.push(i));
            assert forall|j: int| 0 <= j < orig.len() implies (#[trigger] done.contains(j as usize) <==> (
            old_done.contains(j as usize) || j == i)) by {
                assert(0 <= j < entries.len());
                if done.contains(j as usize) {
                    let w = choose|w: int| 0 <= w < done.len() && done[w] == j as usize;
                    if w < old_done.len() {
                        assert(old_done[w] == j as usize);
                    }
                }
                if old_done.contains(j as usize) {
                    let w = choose|w: int| 0 <= w < old_done.len() && old_done[w] == j as usize;
                    assert(done[w] == j as usize);
                }
                if j == i {
                    assert(done[k as int] == i);
                }
            }
        }
        k = k + 1;
    }
    assert(chosen@.subrange(0, chosen.len() as int) == chosen@);
}

/// Whether every entry at the positions in `chosen` is selected.
pub fn all_selected_at(entries: &Vec<CleanupEntry>, chosen: &Vec<usize>) -> (r: bool)
    requires
        forall|k: int| 0 <= k < chosen.len() ==> #[trigger] chosen@[k] < entries.len(),
    ensures
        r == forall|k: int| 0 <= k < chosen.len() ==> (#[trigger] entries@[chosen@[k] as int]).selected,
{
    let mut k: usize = 0;
    while k < chosen.len()
        invariant
            0 <= k <= chosen.len(),
            forall|m: int| 0 <= m < chosen.len() ==> #[trigger] chosen@[m] < entries.len(),
            forall|m: int| 0 <= m < k ==> (#[trigger] entries@[chosen@[m] as int]).selected,
        decreases chosen.len() - k,
    {
        if !entries[chosen[k]].selected {
            return false;
        }
        k = k + 1;
    }
    true
}

/// Whether the quick selection `pick` takes `e`: every entry, entries of at
/// least 100 MiB (104857600 bytes), or orphans graded High.
pub open spec fn pick_takes(pick: Pick, e: CleanupEntry) -> bool {
    match pick {
        Pick::Every => true,
        Pick::AtLeast100Mib => e.size_bytes >= 104857600,
        Pick::HighConfidenceOrphans => e.orphan_confidence == Some(OrphanConfidence::High),
    }
}

/// A quick selection only adds to the selection: it selects exactly the
/// chosen entries that its rule takes (the high-confidence button only
/// orphans graded High, never Medium, Low or non-orphans; the 100 MB button
/// only entries of at least 100 MiB), keeps every earlier selection, and
/// leaves every other entry as it was.
pub proof fn law_quick_selection_takes_only_its_kind(
    before: Seq<CleanupEntry>,
    after: Seq<CleanupEntry>,
    chosen: Seq<usize>,
    pick: Pick,
)
    requires
        selects(before, after, chosen, picks(pick)),
    ensures
        after.len() == before.len(),
        forall|j: int|
            0 <= j < before.len() ==> (#[trigger] after[j]).selected == (before[j].selected || (
            chosen.contains(j as usize) && pick_takes(pick, before[j]))),
        forall|j: int|
            0 <= j < before.len() && !before[j].selected && (#[trigger] after[j]).selected
                ==> pick_takes(pick, before[j]),
        pick is HighConfidenceOrphans ==> forall|j: int|
            0 <= j < before.len() && before[j].orphan_confidence != Some(OrphanConfidence::High)
                ==> (#[trigger] after[j]).selected == before[j].selected,
{
    assert forall|j: int| 0 <= j < before.len() implies (#[trigger] after[j]).selected == (
    before[j].selected || (chosen.contains(j as usize) && pick_takes(pick, before[j]))) by {
        assert(same_but_selection(after[j], before[j]));
        match pick {
            Pick::Every => {},
            Pick::AtLeast100Mib => {
                assert(picks(pick)(before[j]) == is_large_pick(before[j]));
            },
            Pick::HighConfidenceOrphans => {
                assert(picks(pick)(before[j]) == is_high_orphan(before[j]));
            },
        }
    }
}

} // verus!
