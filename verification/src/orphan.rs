//! Finding application data that no installed application owns: what is
//! known to be installed, which directory names are left alone, and how
//! sure the guess is.
use vstd::prelude::*;

use crate::models::{orphan_entry, CleanupEntry, OrphanConfidence};
use crate::text::{
    after_last, chars_count, chars_have, chars_of, chars_start_with, count_char, has_prefix,
    last_segment, lowercase, owned, push_chars, push_str, same_chars, string_from_chars,
    strip_all_suffixes, strip_suffixes, to_lower, trim, trimmed,
};

verus! {

/// The directories under the home folder that are searched for orphaned data.
pub fn orphan_scan_dirs() -> (r: Vec<&'static str>)
    ensures
        r.len() == 9,
        r@[0]@ == "Library/Application Support"@,
        r@[1]@ == "Library/Preferences"@,
        r@[2]@ == "Library/Saved Application State"@,
        r@[3]@ == "Library/Caches"@,
        r@[4]@ == "Library/Containers"@,
        r@[5]@ == "Library/Group Containers"@,
        r@[6]@ == "Library/WebKit"@,
        r@[7]@ == "Library/Application Scripts"@,
        r@[8]@ == "Library/HTTPStorages"@,
{
    vec![
        "Library/Application Support",
        "Library/Preferences",
        "Library/Saved Application State",
        "Library/Caches",
        "Library/Containers",
        "Library/Group Containers",
        "Library/WebKit",
        "Library/Application Scripts",
        "Library/HTTPStorages",
    ]
}

/// The characters of each string.
pub open spec fn name_views(v: Seq<String>) -> Seq<Seq<char>> {
    Seq::new(v.len(), |i: int| v[i]@)
}

/// The name of an application bundle at `path`: the last path component
/// once every trailing `.app` is removed.
pub open spec fn bundle_name_of(path: Seq<char>) -> Seq<char> {
    last_segment(strip_all_suffixes(path, ".app"@), '/')
}

/// The lowercased bundle identifiers and application names of the installed
/// applications, each once.
pub struct KnownApps {
    pub bundle_ids: Vec<String>,
    pub names: Vec<String>,
}

fn insert_once(set: &mut Vec<String>, s: String)
    requires
        name_views(old(set)@).no_duplicates(),
    ensures
        name_views(final(set)@).no_duplicates(),
        forall|x: Seq<char>| #[trigger]
            name_views(final(set)@).contains(x) <==> (name_views(old(set)@).contains(x) || x == s@),
{
    let sc = chars_of(s.as_str());
    let mut i: usize = 0;
    while i < set.len()
        invariant
            0 <= i <= set.len(),
            set@ == old(set)@,
            name_views(old(set)@).no_duplicates(),
            sc@ == s@,
            forall|k: int| 0 <= k < i ==> name_views(set@)[k] != s@,
        decreases set.len() - i,
    {
        if same_chars(&chars_of(set[i].as_str()), &sc) {
            assert(name_views(set@)[i as int] == s@);
            return;
        }
        i = i + 1;
    }
    let ghost before = name_views(set@);
    set.push(s);
    proof {
        let after = name_views(set@);
        assert(after =~= before.push(sc@));
        assert forall|x: Seq<char>| #[trigger] after.contains(x) <==> (before.contains(x) || x == sc@) by {
            if after.contains(x) {
                let w = choose|w: int| 0 <= w < after.len() && after[w] == x;
                if w < before.len() {
                    assert(before[w] == x);
                }
            }
            if before.contains(x) {
                let w = choose|w: int| 0 <= w < before.len() && before[w] == x;
                assert(after[w] == x);
            }
            if x == sc@ {
                assert(after[before.len() as int] == x);
            }
        }
    }
}

fn contains_text(set: &Vec<String>, t: &Vec<char>) -> (r: bool)
    ensures
        r == name_views(set@).contains(t@),
{
    let mut i: usize = 0;
    while i < set.len()
        invariant
            0 <= i <= set.len(),
            forall|k: int| 0 <= k < i ==> name_views(set@)[k] != t@,
        decreases set.len() - i,
    {
        if same_chars(&chars_of(set[i].as_str()), t) {
            assert(name_views(set@)[i as int] == t@);
            return true;
        }
        i = i + 1;
    }
    false
}

/// `nl` lies inside the namespace of a known bundle identifier: it starts
/// with the identifier followed by a dot.
pub open spec fn under_known_id(ids: Seq<Seq<char>>, nl: Seq<char>) -> bool {
    exists|k: int| 0 <= k < ids.len() && has_prefix(nl, (#[trigger] ids[k]).push('.'))
}

/// `nl` belongs to an installed application.
pub open spec fn is_known_name(ids: Seq<Seq<char>>, names: Seq<Seq<char>>, nl: Seq<char>) -> bool {
    ids.contains(nl) || under_known_id(ids, nl) || names.contains(nl)
}

impl KnownApps {
    /// No application known.
    pub fn new() -> (r: KnownApps)
        ensures
            r.bundle_ids@ == Seq::<String>::empty(),
            r.names@ == Seq::<String>::empty(),
    {
        KnownApps { bundle_ids: Vec::new(), names: Vec::new() }
    }

    /// Both sets hold each text once.
    pub open spec fn wf(&self) -> bool {
        name_views(self.bundle_ids@).no_duplicates() && name_views(self.names@).no_duplicates()
    }

    /// Records the bundle identifier that `PlistBuddy` printed: trimmed and
    /// lowercased, when not empty.
    pub fn add_bundle_id(&mut self, printed: &str)
        requires
            old(self).wf(),
        ensures
            final(self).wf(),
            final(self).names == old(self).names,
            forall|x: Seq<char>| #[trigger]
                name_views(final(self).bundle_ids@).contains(x) <==> (name_views(
                    old(self).bundle_ids@,
                ).contains(x) || (x == lowercase(trim(printed@)) && x.len() > 0)),
    {
        let raw = chars_of(printed);
        let t = string_from_chars(&trimmed(&raw));
        let s = to_lower(t.as_str());
        if s.as_str().is_empty() {
            return;
        }
        insert_once(&mut self.bundle_ids, s);
    }

    /// Records the lowercased name of the application bundle at `path`, when
    /// not empty.
    pub fn add_app_name(&mut self, path: &str)
        requires
            old(self).wf(),
        ensures
            final(self).wf(),
            final(self).bundle_ids == old(self).bundle_ids,
            forall|x: Seq<char>| #[trigger]
                name_views(final(self).names@).contains(x) <==> (name_views(old(self).names@).contains(x)
                    || (x == lowercase(bundle_name_of(path@)) && x.len() > 0)),
    {
        let name = bundle_name(path);
        let n = to_lower(name.as_str());
        if n.as_str().is_empty() {
            return;
        }
        insert_once(&mut self.names, n);
    }

    /// Whether the lowercased directory name `nl` belongs to a known application:
    /// it is a known bundle identifier, lies in the namespace of one, or is a
    /// known application name.
    pub fn is_known(&self, nl: &str) -> (r: bool)
        ensures
            r == is_known_name(name_views(self.bundle_ids@), name_views(self.names@), nl@),
    {
        let n = chars_of(nl);
        if contains_text(&self.bundle_ids, &n) {
            return true;
        }
        let mut i: usize = 0;
        while i < self.bundle_ids.len()
            invariant
                0 <= i <= self.bundle_ids.len(),
                n@ == nl@,
                forall|k: int| 0 <= k < i ==> !has_prefix(nl@, (#[trigger] name_views(self.bundle_ids@)[k]).push('.')),
            decreases self.bundle_ids.len() - i,
        {
            let mut kid = chars_of(self.bundle_ids[i].as_str());
            kid.push('.');
            assert(kid@ == name_views(self.bundle_ids@)[i as int].push('.'));
            if chars_start_with(&n, &kid) {
                return true;
            }
            i = i + 1;
        }
        contains_text(&self.names, &n)
    }
}

/// The name of the application bundle at `path`.
pub fn bundle_name(path: &str) -> (r: String)
    ensures
        r@ == bundle_name_of(path@),
{
    let p = chars_of(path);
    let app = chars_of(".app");
    let stem = strip_suffixes(&p, &app);
    let name = after_last(&stem, '/');
    string_from_chars(&name)
}

/// A directory name that the orphan search never offers: Apple's own, hidden
/// ones, and the `caches` and `metadata` folders.
pub open spec fn is_reserved_name(nl: Seq<char>) -> bool {
    ||| has_prefix(nl, "com.apple."@)
    ||| nl == "com.apple"@
    ||| has_prefix(nl, "apple."@)
    ||| has_prefix(nl, seq!['.'])
    ||| nl == "caches"@
    ||| nl == "metadata"@
}

/// Whether the lowercased directory name `nl` is one the orphan search leaves alone.
pub fn is_reserved(nl: &str) -> (r: bool)
    ensures
        r == is_reserved_name(nl@),
{
    let n = chars_of(nl);
    let dot = vec!['.'];
    assert(dot@ == seq!['.']);
    chars_start_with(&n, &chars_of("com.apple.")) || same_chars(&n, &chars_of("com.apple"))
        || chars_start_with(&n, &chars_of("apple.")) || chars_start_with(&n, &dot) || same_chars(
        &n,
        &chars_of("caches"),
    ) || same_chars(&n, &chars_of("metadata"))
}

/// The number of bytes that UTF-8 takes for `c`.
pub open spec fn utf8_width(c: char) -> nat {
    let u = c as u32;
    if u < 0x80 {
        1
    } else if u < 0x800 {
        2
    } else if u < 0x10000 {
        3
    } else {
        4
    }
}

/// The number of bytes that UTF-8 takes for `s`, as `str::len` counts them.
pub open spec fn utf8_len(s: Seq<char>) -> nat
    decreases s.len(),
{
    if s.len() == 0 {
        0
    } else {
        utf8_len(s.drop_last()) + utf8_width(s.last())
    }
}

proof fn lemma_utf8_len_prefix(s: Seq<char>, k: int)
    requires
        0 <= k <= s.len(),
    ensures
        utf8_len(s.subrange(0, k)) <= utf8_len(s),
    decreases s.len() - k,
{
    if k < s.len() {
        lemma_utf8_len_prefix(s.drop_last(), k);
        assert(s.drop_last().subrange(0, k) == s.subrange(0, k));
    } else {
        assert(s.subrange(0, k) == s);
    }
}

fn utf8_longer_than_three(s: &Vec<char>) -> (r: bool)
    ensures
        r == (utf8_len(s@) > 3),
{
    let mut n: u64 = 0;
    let mut i: usize = 0;
    while i < s.len()
        invariant
            0 <= i <= s.len(),
            n == utf8_len(s@.subrange(0, i as int)),
            n <= 3,
        decreases s.len() - i,
    {
        assert(s@.subrange(0, i + 1).drop_last() == s@.subrange(0, i as int));
        let u = s[i] as u32;
        let w: u64 = if u < 0x80 {
            1
        } else if u < 0x800 {
            2
        } else if u < 0x10000 {
            3
        } else {
            4
        };
        n = n + w;
        if n > 3 {
            proof {
                lemma_utf8_len_prefix(s@, i + 1);
            }
            return true;
        }
        i = i + 1;
    }
    assert(s@.subrange(0, i as int) == s@);
    false
}

/// How sure the search is that the lowercased name `nl` is orphaned data: a
/// reverse-domain identifier (three or more dot-separated parts) is high, a
/// single word longer than three bytes (in UTF-8) is medium, anything else low.
pub open spec fn confidence_of(nl: Seq<char>) -> OrphanConfidence {
    if nl.contains('.') && count_char(nl, '.') + 1 >= 3 {
        OrphanConfidence::High
    } else if !nl.contains(' ') && utf8_len(nl) > 3 {
        OrphanConfidence::Medium
    } else {
        OrphanConfidence::Low
    }
}

/// The confidence for the lowercased directory name `nl`.
pub fn orphan_confidence(nl: &str) -> (r: OrphanConfidence)
    ensures
        r == confidence_of(nl@),
{
    let n = chars_of(nl);
    if chars_have(&n, '.') && chars_count(&n, '.') >= 2 {
        OrphanConfidence::High
    } else if !chars_have(&n, ' ') && utf8_longer_than_three(&n) {
        OrphanConfidence::Medium
    } else {
        OrphanConfidence::Low
    }
}

/// The tag before an orphan's name in its label.
pub open spec fn confidence_tag(c: OrphanConfidence) -> Seq<char> {
    match c {
        OrphanConfidence::High => "[HIGH] "@,
        OrphanConfidence::Medium => "[MED]  "@,
        OrphanConfidence::Low => "[LOW]  "@,
    }
}

/// The label of an orphan: its confidence tag, then its directory name.
pub fn orphan_label(confidence: OrphanConfidence, name: &str) -> (r: String)
    ensures
        r@ == confidence_tag(confidence) + name@,
{
    let mut out: Vec<char> = Vec::new();
    match confidence {
        OrphanConfidence::High => push_str(&mut out, "[HIGH] "),
        OrphanConfidence::Medium => push_str(&mut out, "[MED]  "),
        OrphanConfidence::Low => push_str(&mut out, "[LOW]  "),
    }
    push_chars(&mut out, &chars_of(name));
    string_from_chars(&out)
}

/// The lowercased directory name `name` when the search offers it: neither
/// reserved nor owned by a known application.
pub fn orphan_candidate(known: &KnownApps, name: &str) -> (r: Option<String>)
    ensures
        match r {
            Some(nl) => nl@ == lowercase(name@) && !is_reserved_name(nl@) && !is_known_name(
                name_views(known.bundle_ids@),
                name_views(known.names@),
                nl@,
            ),
            None => is_reserved_name(lowercase(name@)) || is_known_name(
                name_views(known.bundle_ids@),
                name_views(known.names@),
                lowercase(name@),
            ),
        },
{
    let nl = to_lower(name);
    if is_reserved(nl.as_str()) || known.is_known(nl.as_str()) {
        None
    } else {
        Some(nl)
    }
}

/// The entry for an orphaned directory of `size` bytes, none when it is
/// empty: section "Orphan App Data", labelled with its confidence, which is
/// judged from the lowercased name `nl`.
pub fn orphan_record(id: usize, name: &str, nl: &str, path: &str, size: u64) -> (r: Option<
    CleanupEntry,
>)
    ensures
        size == 0 ==> r is None,
        size > 0 ==> (r matches Some(e) && e.id == id && e.section@ == "Orphan App Data"@
            && e.label@ == confidence_tag(confidence_of(nl@)) + name@
            && e.path@ == path@ && e.size_bytes == size && !e.selected && e.orphan_confidence
            == Some(confidence_of(nl@))),
{
    if size == 0 {
        return None;
    }
    let confidence = orphan_confidence(nl);
    let label = orphan_label(confidence, name);
    Some(orphan_entry(id, "Orphan App Data", label.as_str(), path, size, confidence))
}

} // verus!
