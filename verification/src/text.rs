//! Character-level text helpers: the library works on `Seq<char>` views of
//! strings and builds its output strings from character vectors.
use vstd::prelude::*;

verus! {

/// Whether `c` has the Unicode `White_Space` property, as `char::is_whitespace` decides it.
pub open spec fn is_space(c: char) -> bool {
    let u = c as u32;
    ||| 9 <= u <= 13
    ||| u == 32
    ||| u == 0x85
    ||| u == 0xA0
    ||| u == 0x1680
    ||| 0x2000 <= u <= 0x200A
    ||| u == 0x2028
    ||| u == 0x2029
    ||| u == 0x202F
    ||| u == 0x205F
    ||| u == 0x3000
}

/// `s` without its leading white space.
pub open spec fn trim_start(s: Seq<char>) -> Seq<char>
    decreases s.len(),
{
    if s.len() > 0 && is_space(s[0]) {
        trim_start(s.drop_first())
    } else {
        s
    }
}

/// `s` without its trailing white space.
pub open spec fn trim_end(s: Seq<char>) -> Seq<char>
    decreases s.len(),
{
    if s.len() > 0 && is_space(s.last()) {
        trim_end(s.drop_last())
    } else {
        s
    }
}

/// `s` without leading and trailing white space, as `str::trim` gives it.
pub open spec fn trim(s: Seq<char>) -> Seq<char> {
    trim_end(trim_start(s))
}

/// `t` is a prefix of `s`.
pub open spec fn has_prefix(s: Seq<char>, t: Seq<char>) -> bool {
    t.len() <= s.len() && s.subrange(0, t.len() as int) == t
}

/// `t` is a suffix of `s`.
pub open spec fn has_suffix(s: Seq<char>, t: Seq<char>) -> bool {
    t.len() <= s.len() && s.subrange(s.len() - t.len(), s.len() as int) == t
}

/// `t` occurs in `s` at position `i`.
pub open spec fn occurs_at(s: Seq<char>, t: Seq<char>, i: int) -> bool {
    0 <= i && i + t.len() <= s.len() && s.subrange(i, i + t.len()) == t
}

/// `t` occurs somewhere in `s` (the empty text occurs in every text).
pub open spec fn has_infix(s: Seq<char>, t: Seq<char>) -> bool {
    exists|i: int| occurs_at(s, t, i)
}

/// `s` with every trailing copy of the non-empty `t` removed, as `str::trim_end_matches` gives it.
pub open spec fn strip_all_suffixes(s: Seq<char>, t: Seq<char>) -> Seq<char>
    decreases s.len(),
{
    if t.len() > 0 && has_suffix(s, t) {
        strip_all_suffixes(s.subrange(0, s.len() - t.len()), t)
    } else {
        s
    }
}

/// The text after the last `sep` in `s` (all of `s` when there is none), as
/// `s.split(sep).last()` gives it.
pub open spec fn last_segment(s: Seq<char>, sep: char) -> Seq<char>
    decreases s.len(),
{
    if s.len() == 0 {
        s
    } else if s.last() == sep {
        Seq::empty()
    } else {
        last_segment(s.drop_last(), sep).push(s.last())
    }
}

/// `s` with every `c` removed.
pub open spec fn without_char(s: Seq<char>, c: char) -> Seq<char>
    decreases s.len(),
{
    if s.len() == 0 {
        s
    } else if s.last() == c {
        without_char(s.drop_last(), c)
    } else {
        without_char(s.drop_last(), c).push(s.last())
    }
}

/// The number of occurrences of `c` in `s`.
pub open spec fn count_char(s: Seq<char>, c: char) -> nat
    decreases s.len(),
{
    if s.len() == 0 {
        0
    } else {
        count_char(s.drop_last(), c) + if s.last() == c { 1nat } else { 0nat }
    }
}

/// The decimal digit character for `d < 10`.
pub open spec fn digit_char(d: nat) -> char {
    (48 + d) as char
}

/// The decimal representation of `n`, without leading zeros.
pub open spec fn decimal(n: nat) -> Seq<char>
    decreases n,
{
    if n < 10 {
        seq![digit_char(n)]
    } else {
        decimal(n / 10).push(digit_char(n % 10))
    }
}

/// The result of `str::to_lowercase` on a text.
pub uninterp spec fn lowercase(s: Seq<char>) -> Seq<char>;

/// Calls `str::to_lowercase`; the contract says only that the result is the
/// lowercase mapping of the argument, a function of it alone.
#[verifier::external_body]
pub(crate) fn to_lower(s: &str) -> (r: String)
    ensures
        r@ == lowercase(s@),
{
    s.to_lowercase()
}

/// Collects characters into a `String` through `FromIterator<char>`: the
/// string holds exactly those characters, in order.
#[verifier::external_body]
pub(crate) fn string_from_chars(v: &Vec<char>) -> (r: String)
    ensures
        r@ == v@,
{
    v.iter().collect::<String>()
}

/// The characters of `s`, in order.
pub fn chars_of(s: &str) -> (r: Vec<char>)
    ensures
        r@ == s@,
{
    let mut out: Vec<char> = Vec::new();
    for c in it: s.chars()
        invariant
            out@ == it.seq().take(it.index()),
            it.seq() == s@,
    {
        out.push(c);
    }
    out
}

/// A `String` holding the characters of `s`.
pub fn owned(s: &str) -> (r: String)
    ensures
        r@ == s@,
{
    let v = chars_of(s);
    string_from_chars(&v)
}

/// Appends the characters of `s` to `out`.
pub fn push_str(out: &mut Vec<char>, s: &str)
    ensures
        final(out)@ == old(out)@ + s@,
{
    let v = chars_of(s);
    let mut i: usize = 0;
    while i < v.len()
        invariant
            0 <= i <= v.len(),
            v@ == s@,
            out@ == old(out)@ + v@.subrange(0, i as int),
        decreases v.len() - i,
    {
        out.push(v[i]);
        i = i + 1;
        assert(v@.subrange(0, i as int) == v@.subrange(0, i - 1).push(v@[i - 1]));
    }
    assert(v@.subrange(0, v.len() as int) == v@);
}

/// Appends the characters of `s` to `out`.
pub fn push_chars(out: &mut Vec<char>, s: &Vec<char>)
    ensures
        final(out)@ == old(out)@ + s@,
{
    let mut i: usize = 0;
    while i < s.len()
        invariant
            0 <= i <= s.len(),
            out@ == old(out)@ + s@.subrange(0, i as int),
        decreases s.len() - i,
    {
        out.push(s[i]);
        i = i + 1;
        assert(s@.subrange(0, i as int) == s@.subrange(0, i - 1).push(s@[i - 1]));
    }
    assert(s@.subrange(0, s.len() as int) == s@);
}

/// Whether `c` is white space, as `char::is_whitespace` decides it.
pub fn char_is_space(c: char) -> (r: bool)
    ensures
        r == is_space(c),
{
    let u = c as u32;
    (9 <= u && u <= 13) || u == 32 || u == 0x85 || u == 0xA0 || u == 0x1680 || (0x2000 <= u && u
        <= 0x200A) || u == 0x2028 || u == 0x2029 || u == 0x202F || u == 0x205F || u == 0x3000
}

proof fn lemma_trim_start_skip(s: Seq<char>, i: int)
    requires
        0 <= i <= s.len(),
        forall|k: int| 0 <= k < i ==> is_space(#[trigger] s[k]),
    ensures
        trim_start(s) == trim_start(s.subrange(i, s.len() as int)),
    decreases i,
{
    if i > 0 {
        assert(s.drop_first().subrange(i - 1, s.drop_first().len() as int) == s.subrange(
            i,
            s.len() as int,
        ));
        lemma_trim_start_skip(s.drop_first(), i - 1);
    } else {
        assert(s.subrange(0, s.len() as int) == s);
    }
}

proof fn lemma_trim_end_skip(s: Seq<char>, j: int)
    requires
        0 <= j <= s.len(),
        forall|k: int| j <= k < s.len() ==> is_space(#[trigger] s[k]),
    ensures
        trim_end(s) == trim_end(s.subrange(0, j)),
    decreases s.len() - j,
{
    if j < s.len() {
        assert(s.drop_last().subrange(0, j) == s.subrange(0, j));
        lemma_trim_end_skip(s.drop_last(), j);
    } else {
        assert(s.subrange(0, j) == s);
    }
}

/// The characters of `s` without leading and trailing white space.
pub fn trimmed(s: &Vec<char>) -> (r: Vec<char>)
    ensures
        r@ == trim(s@),
{
    let n = s.len();
    let mut i: usize = 0;
    while i < n && char_is_space(s[i])
        invariant
            0 <= i <= n,
            n == s.len(),
            forall|k: int| 0 <= k < i ==> is_space(#[trigger] s@[k]),
        decreases n - i,
    {
        i = i + 1;
    }
    proof {
        lemma_trim_start_skip(s@, i as int);
    }
    let ghost rest = s@.subrange(i as int, n as int);
    assert(trim_start(rest) == rest);
    let mut j: usize = n;
    while j > i && char_is_space(s[j - 1])
        invariant
            i <= j <= n,
            n == s.len(),
            forall|k: int| j <= k < n ==> is_space(#[trigger] s@[k]),
        decreases j,
    {
        j = j - 1;
    }
    proof {
        assert forall|k: int| j - i <= k < rest.len() implies is_space(#[trigger] rest[k]) by {
            assert(rest[k] == s@[k + i]);
        }
        lemma_trim_end_skip(rest, j - i);
        assert(rest.subrange(0, j - i) == s@.subrange(i as int, j as int));
    }
    let mut out: Vec<char> = Vec::new();
    let mut k: usize = i;
    while k < j
        invariant
            i <= k <= j,
            j <= n,
            n == s.len(),
            out@ == s@.subrange(i as int, k as int),
        decreases j - k,
    {
        out.push(s[k]);
        k = k + 1;
        assert(s@.subrange(i as int, k as int) == s@.subrange(i as int, k - 1).push(s@[k - 1]));
    }
    out
}

/// Whether `a` and `b` hold the same characters.
pub fn same_chars(a: &Vec<char>, b: &Vec<char>) -> (r: bool)
    ensures
        r == (a@ == b@),
{
    if a.len() != b.len() {
        return false;
    }
    let mut i: usize = 0;
    while i < a.len()
        invariant
            0 <= i <= a.len(),
            a.len() == b.len(),
            forall|k: int| 0 <= k < i ==> a@[k] == b@[k],
        decreases a.len() - i,
    {
        if a[i] != b[i] {
            return false;
        }
        i = i + 1;
    }
    assert(a@ =~= b@);
    true
}

/// Whether `a` and `b` are the same text.
pub fn same_text(a: &str, b: &str) -> (r: bool)
    ensures
        r == (a@ == b@),
{
    let x = chars_of(a);
    let y = chars_of(b);
    same_chars(&x, &y)
}

/// Whether `t` occurs in `s` at position `i`.
pub fn chars_occur_at(s: &Vec<char>, t: &Vec<char>, i: usize) -> (r: bool)
    ensures
        r == occurs_at(s@, t@, i as int),
{
    if i > s.len() || t.len() > s.len() - i {
        return false;
    }
    let mut k: usize = 0;
    while k < t.len()
        invariant
            0 <= k <= t.len(),
            i + t.len() <= s.len(),
            forall|m: int| 0 <= m < k ==> s@[i + m] == t@[m],
        decreases t.len() - k,
    {
        if s[i + k] != t[k] {
            assert(s@.subrange(i as int, i + t.len())[k as int] != t@[k as int]);
            return false;
        }
        k = k + 1;
    }
    assert(s@.subrange(i as int, i + t.len()) =~= t@);
    true
}

/// Whether `t` is a prefix of `s`.
pub fn chars_start_with(s: &Vec<char>, t: &Vec<char>) -> (r: bool)
    ensures
        r == has_prefix(s@, t@),
{
    chars_occur_at(s, t, 0)
}

/// Whether `t` is a suffix of `s`.
pub fn chars_end_with(s: &Vec<char>, t: &Vec<char>) -> (r: bool)
    ensures
        r == has_suffix(s@, t@),
{
    if t.len() > s.len() {
        return false;
    }
    chars_occur_at(s, t, s.len() - t.len())
}

/// Whether `t` occurs in `s`, as `str::contains` decides it.
pub fn chars_contain(s: &Vec<char>, t: &Vec<char>) -> (r: bool)
    ensures
        r == has_infix(s@, t@),
{
    if t.len() > s.len() {
        assert forall|i: int| !occurs_at(s@, t@, i) by {}
        return false;
    }
    let last = s.len() - t.len();
    let mut i: usize = 0;
    loop
        invariant
            0 <= i <= last,
            last + t.len() == s.len(),
            forall|m: int| 0 <= m < i ==> !occurs_at(s@, t@, m),
        ensures
            forall|m: int| 0 <= m <= last ==> !occurs_at(s@, t@, m),
        decreases last - i,
    {
        if chars_occur_at(s, t, i) {
            return true;
        }
        if i == last {
            break;
        }
        i = i + 1;
    }
    assert forall|m: int| !occurs_at(s@, t@, m) by {
        if 0 <= m <= last {
        }
    }
    false
}

/// Whether the character `c` occurs in `s`.
pub fn chars_have(s: &Vec<char>, c: char) -> (r: bool)
    ensures
        r == s@.contains(c),
{
    let mut i: usize = 0;
    while i < s.len()
        invariant
            0 <= i <= s.len(),
            forall|k: int| 0 <= k < i ==> s@[k] != c,
        decreases s.len() - i,
    {
        if s[i] == c {
            return true;
        }
        i = i + 1;
    }
    false
}

/// The number of times `c` occurs in `s`.
pub fn chars_count(s: &Vec<char>, c: char) -> (r: usize)
    ensures
        r == count_char(s@, c),
{
    let mut i: usize = 0;
    let mut n: usize = 0;
    while i < s.len()
        invariant
            0 <= i <= s.len(),
            n == count_char(s@.subrange(0, i as int), c),
            n <= i,
        decreases s.len() - i,
    {
        assert(s@.subrange(0, i + 1).drop_last() == s@.subrange(0, i as int));
        if s[i] == c {
            n = n + 1;
        }
        i = i + 1;
    }
    assert(s@.subrange(0, s.len() as int) == s@);
    n
}

/// `s` with every trailing copy of `t` removed (nothing when `t` is empty).
pub fn strip_suffixes(s: &Vec<char>, t: &Vec<char>) -> (r: Vec<char>)
    ensures
        r@ == strip_all_suffixes(s@, t@),
{
    let mut cur: Vec<char> = s.clone();
    assert(cur@ == s@);
    if t.len() == 0 {
        return cur;
    }
    while chars_end_with(&cur, t)
        invariant
            t.len() > 0,
            strip_all_suffixes(cur@, t@) == strip_all_suffixes(s@, t@),
        decreases cur.len(),
    {
        let keep = cur.len() - t.len();
        let mut next: Vec<char> = Vec::new();
        let mut k: usize = 0;
        while k < keep
            invariant
                0 <= k <= keep,
                keep <= cur.len(),
                next@ == cur@.subrange(0, k as int),
            decreases keep - k,
        {
            next.push(cur[k]);
            k = k + 1;
            assert(cur@.subrange(0, k as int) == cur@.subrange(0, k - 1).push(cur@[k - 1]));
        }
        cur = next;
    }
    cur
}

/// The text after the last `sep` in `s`.
pub fn after_last(s: &Vec<char>, sep: char) -> (r: Vec<char>)
    ensures
        r@ == last_segment(s@, sep),
{
    let mut start: usize = s.len();
    assert(s@.subrange(0, s.len() as int) == s@);
    assert(s@.subrange(s.len() as int, s.len() as int) == Seq::<char>::empty());
    assert(last_segment(s@, sep) + Seq::<char>::empty() == last_segment(s@, sep));
    while start > 0 && s[start - 1] != sep
        invariant
            0 <= start <= s.len(),
            last_segment(s@, sep) == last_segment(s@.subrange(0, start as int), sep) + s@.subrange(
                start as int,
                s.len() as int,
            ),
        decreases start,
    {
        let ghost p = s@.subrange(0, start as int);
        assert(p.drop_last() == s@.subrange(0, start - 1));
        assert(s@.subrange(start - 1, s.len() as int) == seq![p.last()] + s@.subrange(
            start as int,
            s.len() as int,
        ));
        assert(last_segment(p, sep) == last_segment(p.drop_last(), sep).push(p.last()));
        assert(last_segment(p.drop_last(), sep).push(p.last()) + s@.subrange(
            start as int,
            s.len() as int,
        ) == last_segment(p.drop_last(), sep) + s@.subrange(start - 1, s.len() as int));
        start = start - 1;
    }
    let ghost p = s@.subrange(0, start as int);
    assert(last_segment(p, sep) == Seq::<char>::empty());
    let mut out: Vec<char> = Vec::new();
    let mut k: usize = start;
    while k < s.len()
        invariant
            start <= k <= s.len(),
            out@ == s@.subrange(start as int, k as int),
        decreases s.len() - k,
    {
        out.push(s[k]);
        k = k + 1;
        assert(s@.subrange(start as int, k as int) == s@.subrange(start as int, k - 1).push(
            s@[k - 1],
        ));
    }
    assert(Seq::<char>::empty() + s@.subrange(start as int, s.len() as int) == out@);
    out
}

/// `s` with every `c` removed, as `str::replace(c, "")` gives it.
pub fn remove_char(s: &Vec<char>, c: char) -> (r: Vec<char>)
    ensures
        r@ == without_char(s@, c),
{
    let mut out: Vec<char> = Vec::new();
    let mut i: usize = 0;
    while i < s.len()
        invariant
            0 <= i <= s.len(),
            out@ == without_char(s@.subrange(0, i as int), c),
        decreases s.len() - i,
    {
        assert(s@.subrange(0, i + 1).drop_last() == s@.subrange(0, i as int));
        if s[i] != c {
            out.push(s[i]);
        }
        i = i + 1;
    }
    assert(s@.subrange(0, s.len() as int) == s@);
    out
}

/// Appends the decimal representation of `n` to `out`.
pub fn push_decimal(out: &mut Vec<char>, n: u64)
    ensures
        final(out)@ == old(out)@ + decimal(n as nat),
    decreases n,
{
    if n >= 10 {
        push_decimal(out, n / 10);
    }
    let d: u64 = n % 10;
    let c: char = ((d as u8) + 48) as char;
    assert(c == digit_char(d as nat));
    out.push(c);
    proof {
        if n >= 10 {
            assert(decimal(n as nat) == decimal((n / 10) as nat).push(digit_char((n % 10) as nat)));
        } else {
            assert(decimal(n as nat) == seq![digit_char(n as nat)]);
        }
    }
}

/// The decimal representation of `n` as a `String`.
pub fn decimal_string(n: u64) -> (r: String)
    ensures
        r@ == decimal(n as nat),
{
    let mut v: Vec<char> = Vec::new();
    push_decimal(&mut v, n);
    assert(v@ == decimal(n as nat));
    string_from_chars(&v)
}

} // verus!
