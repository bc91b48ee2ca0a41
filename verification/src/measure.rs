//! Measured sizes: the table of directory sizes that a batch measurement
//! gives, sums of sizes, and volume figures.
use vstd::prelude::*;

use crate::models::DiskSpace;

verus! {

/// The size recorded last for `path` among `paths`/`sizes`, as a map that
/// takes the pairs in order (later pairs replacing earlier ones) gives it.
pub open spec fn last_size(paths: Seq<Seq<char>>, sizes: Seq<u64>, path: Seq<char>) -> Option<u64>
    decreases paths.len(),
{
    if paths.len() == 0 || sizes.len() != paths.len() {
        None
    } else if paths.last() == path {
        Some(sizes.last())
    } else {
        last_size(paths.drop_last(), sizes.drop_last(), path)
    }
}

/// The sum of the sizes, each path counted once with its last size.
pub open spec fn distinct_total(paths: Seq<Seq<char>>, sizes: Seq<u64>) -> nat
    decreases paths.len(),
{
    if paths.len() == 0 || sizes.len() != paths.len() {
        0
    } else {
        distinct_total(paths.drop_last(), sizes.drop_last()) + if paths.drop_last().contains(
            paths.last(),
        ) {
            0nat
        } else {
            sizes.last() as nat
        }
    }
}

/// Sizes measured for paths, looked up as a map from path to size.
pub struct SizeTable {
    pub paths: Vec<String>,
    pub sizes: Vec<u64>,
}

/// The characters of each path.
pub open spec fn path_views(v: Seq<String>) -> Seq<Seq<char>> {
    Seq::new(v.len(), |i: int| v[i]@)
}

impl SizeTable {
    /// The table as the sequence of recorded paths.
    pub open spec fn keys(&self) -> Seq<Seq<char>> {
        path_views(self.paths@)
    }

    /// An empty table.
    pub fn new() -> (r: SizeTable)
        ensures
            r.keys() == Seq::<Seq<char>>::empty(),
            r.sizes@ == Seq::<u64>::empty(),
    {
        SizeTable { paths: Vec::new(), sizes: Vec::new() }
    }

    /// Records the size of `path`.
    pub fn record(&mut self, path: String, size: u64)
        requires
            old(self).paths.len() == old(self).sizes.len(),
        ensures
            final(self).keys() == old(self).keys().push(path@),
            final(self).sizes@ == old(self).sizes@.push(size),
            final(self).paths.len() == final(self).sizes.len(),
    {
        let ghost before = self.keys();
        self.paths.push(path);
        self.sizes.push(size);
        assert(self.keys() =~= before.push(path@));
    }

    /// The size recorded last for `path`, or 0 when there is none.
    pub fn size_or_zero(&self, path: &str) -> (r: u64)
        requires
            self.paths.len() == self.sizes.len(),
        ensures
            r == match last_size(self.keys(), self.sizes@, path@) {
                Some(s) => s,
                None => 0,
            },
    {
        let p = String::from_str(path);
        let mut i: usize = self.paths.len();
        assert(self.keys().subrange(0, i as int) == self.keys());
        assert(self.sizes@.subrange(0, i as int) == self.sizes@);
        while i > 0
            invariant
                0 <= i <= self.paths.len(),
                self.paths.len() == self.sizes.len(),
                p@ == path@,
                last_size(self.keys(), self.sizes@, path@) == last_size(
                    self.keys().subrange(0, i as int),
                    self.sizes@.subrange(0, i as int),
                    path@,
                ),
            decreases i,
        {
            let ghost ks = self.keys().subrange(0, i as int);
            let ghost ss = self.sizes@.subrange(0, i as int);
            assert(ks.drop_last() == self.keys().subrange(0, i - 1));
            assert(ss.drop_last() == self.sizes@.subrange(0, i - 1));
            assert(ks.last() == self.paths@[i - 1]@);
            if self.paths[i - 1] == p {
                return self.sizes[i - 1];
            }
            i = i - 1;
        }
        0
    }

    /// Whether the sizes, each path counted once, add up to at most `u64::MAX`.
    pub fn total_fits(&self) -> (r: bool)
        requires
            self.paths.len() == self.sizes.len(),
        ensures
            r == (distinct_total(self.keys(), self.sizes@) <= u64::MAX),
    {
        let mut sum: u128 = 0;
        let mut i: usize = 0;
        while i < self.paths.len()
            invariant
                0 <= i <= self.paths.len(),
                self.paths.len() == self.sizes.len(),
                sum == distinct_total(self.keys().subrange(0, i as int), self.sizes@.subrange(0, i as int)),
                sum <= u64::MAX,
            decreases self.paths.len() - i,
        {
            let seen = self.seen_before(i);
            proof {
                self.lemma_step(i as int);
            }
            if !seen {
                sum = sum + self.sizes[i] as u128;
                if sum > u64::MAX as u128 {
                    proof {
                        self.lemma_total_prefix(i + 1);
                    }
                    return false;
                }
            }
            i = i + 1;
        }
        assert(self.keys().subrange(0, i as int) == self.keys());
        assert(self.sizes@.subrange(0, i as int) == self.sizes@);
        true
    }

    /// The sum of the sizes, each path counted once with its last size.
    pub fn total(&self) -> (r: u64)
        requires
            self.paths.len() == self.sizes.len(),
            distinct_total(self.keys(), self.sizes@) <= u64::MAX,
        ensures
            r == distinct_total(self.keys(), self.sizes@),
    {
        let mut sum: u64 = 0;
        let mut i: usize = 0;
        while i < self.paths.len()
            invariant
                0 <= i <= self.paths.len(),
                self.paths.len() == self.sizes.len(),
                distinct_total(self.keys(), self.sizes@) <= u64::MAX,
                sum == distinct_total(self.keys().subrange(0, i as int), self.sizes@.subrange(0, i as int)),
            decreases self.paths.len() - i,
        {
            let seen = self.seen_before(i);
            proof {
                self.lemma_step(i as int);
                self.lemma_total_prefix(i + 1);
            }
            if !seen {
                sum = sum + self.sizes[i];
            }
            i = i + 1;
        }
        assert(self.keys().subrange(0, i as int) == self.keys());
        assert(self.sizes@.subrange(0, i as int) == self.sizes@);
        sum
    }

    fn seen_before(&self, i: usize) -> (r: bool)
        requires
            i < self.paths.len(),
        ensures
            r == self.keys().subrange(0, i as int).contains(self.keys()[i as int]),
    {
        let mut k: usize = 0;
        while k < i
            invariant
                0 <= k <= i,
                i < self.paths.len(),
                forall|m: int| 0 <= m < k ==> self.keys()[m] != self.keys()[i as int],
            decreases i - k,
        {
            if self.paths[k] == self.paths[i] {
                assert(self.keys().subrange(0, i as int)[k as int] == self.keys()[i as int]);
                return true;
            }
            k = k + 1;
        }
        proof {
            if self.keys().subrange(0, i as int).contains(self.keys()[i as int]) {
                let w = choose|w: int| 0 <= w < i && self.keys().subrange(0, i as int)[w] == self.keys()[i as int];
                assert(self.keys()[w] == self.keys()[i as int]);
            }
        }
        false
    }

    proof fn lemma_step(&self, i: int)
        requires
            0 <= i < self.paths.len(),
            self.paths.len() == self.sizes.len(),
        ensures
            self.keys().subrange(0, i + 1).drop_last() == self.keys().subrange(0, i),
            self.sizes@.subrange(0, i + 1).drop_last() == self.sizes@.subrange(0, i),
            self.keys().subrange(0, i + 1).last() == self.keys()[i],
            self.sizes@.subrange(0, i + 1).last() == self.sizes@[i],
    {
        assert(self.keys().subrange(0, i + 1).drop_last() =~= self.keys().subrange(0, i));
        assert(self.sizes@.subrange(0, i + 1).drop_last() =~= self.sizes@.subrange(0, i));
    }

    proof fn lemma_total_prefix(&self, k: int)
        requires
            0 <= k <= self.paths.len(),
            self.paths.len() == self.sizes.len(),
        ensures
            distinct_total(self.keys().subrange(0, k), self.sizes@.subrange(0, k)) <= distinct_total(
                self.keys(),
                self.sizes@,
            ),
    {
        lemma_distinct_total_prefix(self.keys(), self.sizes@, k);
    }
}

proof fn lemma_distinct_total_prefix(ps: Seq<Seq<char>>, ss: Seq<u64>, k: int)
    requires
        0 <= k <= ps.len(),
        ps.len() == ss.len(),
    ensures
        distinct_total(ps.subrange(0, k), ss.subrange(0, k)) <= distinct_total(ps, ss),
    decreases ps.len() - k,
{
    if k < ps.len() {
        lemma_distinct_total_prefix(ps.drop_last(), ss.drop_last(), k);
        assert(ps.drop_last().subrange(0, k) == ps.subrange(0, k));
        assert(ss.drop_last().subrange(0, k) == ss.subrange(0, k));
    } else {
        assert(ps.subrange(0, k) == ps);
        assert(ss.subrange(0, k) == ss);
    }
}

/// The sum of the values.
pub open spec fn values_total(s: Seq<u64>) -> nat
    decreases s.len(),
{
    if s.len() == 0 {
        0
    } else {
        values_total(s.drop_last()) + s.last() as nat
    }
}

proof fn lemma_values_prefix(s: Seq<u64>, k: int)
    requires
        0 <= k <= s.len(),
    ensures
        values_total(s.subrange(0, k)) <= values_total(s),
    decreases s.len() - k,
{
    if k < s.len() {
        lemma_values_prefix(s.drop_last(), k);
        assert(s.drop_last().subrange(0, k) == s.subrange(0, k));
    } else {
        assert(s.subrange(0, k) == s);
    }
}

/// Whether the values add up to at most `u64::MAX`.
pub fn values_fit(values: &Vec<u64>) -> (r: bool)
    ensures
        r == (values_total(values@) <= u64::MAX),
{
    let mut sum: u128 = 0;
    let mut i: usize = 0;
    while i < values.len()
        invariant
            0 <= i <= values.len(),
            sum == values_total(values@.subrange(0, i as int)),
            sum <= u64::MAX,
        decreases values.len() - i,
    {
        assert(values@.subrange(0, i + 1).drop_last() == values@.subrange(0, i as int));
        sum = sum + values[i] as u128;
        if sum > u64::MAX as u128 {
            proof {
                lemma_values_prefix(values@, i + 1);
            }
            return false;
        }
        i = i + 1;
    }
    assert(values@.subrange(0, i as int) == values@);
    true
}

/// The sum of the values.
pub fn values_sum(values: &Vec<u64>) -> (r: u64)
    requires
        values_total(values@) <= u64::MAX,
    ensures
        r == values_total(values@),
{
    let mut sum: u64 = 0;
    let mut i: usize = 0;
    while i < values.len()
        invariant
            0 <= i <= values.len(),
            values_total(values@) <= u64::MAX,
            sum == values_total(values@.subrange(0, i as int)),
        decreases values.len() - i,
    {
        assert(values@.subrange(0, i + 1).drop_last() == values@.subrange(0, i as int));
        proof {
            lemma_values_prefix(values@, i + 1);
        }
        sum = sum + values[i];
        i = i + 1;
    }
    assert(values@.subrange(0, i as int) == values@);
    sum
}

/// The volume figures from a `statfs` call: blocks times block size when the
/// call succeeded (`status` 0), zeros otherwise.
pub fn disk_space_from_stat(status: i32, blocks: u64, available_blocks: u64, block_size: u64) -> (r:
    DiskSpace)
    requires
        status == 0 ==> blocks * block_size <= u64::MAX,
        status == 0 ==> available_blocks * block_size <= u64::MAX,
    ensures
        status == 0 ==> r.total_bytes == blocks * block_size && r.available_bytes
            == available_blocks * block_size,
        status != 0 ==> r.total_bytes == 0 && r.available_bytes == 0,
{
    if status == 0 {
        DiskSpace { total_bytes: blocks * block_size, available_bytes: available_blocks * block_size }
    } else {
        DiskSpace { total_bytes: 0, available_bytes: 0 }
    }
}

} // verus!
