//! Installed applications: where they are looked for, how a bundle becomes
//! a record, and which files in the Library belong to one.
use vstd::prelude::*;

use crate::models::{entry, CleanupEntry, InstalledApp, APP_TRACE_ID_OFFSET};
use crate::orphan::bundle_name_of;
use crate::text::{
    chars_of, chars_start_with, has_prefix, has_suffix, lowercase, owned, push_chars, push_str, remove_char,
    same_chars, string_from_chars, strip_all_suffixes, strip_suffixes, to_lower, trim, trimmed,
    without_char,
};

verus! {

/// The folders searched for application bundles.
pub fn app_search_dirs(home: &str) -> (r: Vec<String>)
    ensures
        r.len() == 3,
        r@[0]@ == "/Applications"@,
        r@[1]@ == home@ + "/Applications"@,
        r@[2]@ == "/System/Applications"@,
{
    let mut user: Vec<char> = Vec::new();
    push_str(&mut user, home);
    push_str(&mut user, "/Applications");
    vec![owned("/Applications"), string_from_chars(&user), owned("/System/Applications")]
}

/// The pieces of `s` between newlines (one more than there are newlines).
pub open spec fn newline_pieces(s: Seq<char>) -> Seq<Seq<char>>
    decreases s.len(),
{
    if s.len() == 0 {
        seq![Seq::<char>::empty()]
    } else if s.last() == '\n' {
        newline_pieces(s.drop_last()).push(Seq::<char>::empty())
    } else {
        let p = newline_pieces(s.drop_last());
        p.update(p.len() - 1, p.last().push(s.last()))
    }
}

/// The non-blank pieces, trimmed, in order.
pub open spec fn nonblank_trimmed(pieces: Seq<Seq<char>>) -> Seq<Seq<char>>
    decreases pieces.len(),
{
    if pieces.len() == 0 {
        Seq::empty()
    } else if trim(pieces.last()).len() > 0 {
        nonblank_trimmed(pieces.drop_last()).push(trim(pieces.last()))
    } else {
        nonblank_trimmed(pieces.drop_last())
    }
}

/// The characters of each string.
pub open spec fn line_views(v: Seq<String>) -> Seq<Seq<char>> {
    Seq::new(v.len(), |i: int| v[i]@)
}

proof fn lemma_pieces_nonempty(s: Seq<char>)
    ensures
        newline_pieces(s).len() >= 1,
    decreases s.len(),
{
    if s.len() > 0 {
        lemma_pieces_nonempty(s.drop_last());
    }
}

/// The paths that `find` printed, one per line: each line trimmed, blank
/// lines skipped.
pub fn listed_paths(printed: &str) -> (r: Vec<String>)
    ensures
        line_views(r@) == nonblank_trimmed(newline_pieces(printed@)),
{
    let s = chars_of(printed);
    let mut out: Vec<String> = Vec::new();
    let mut cur: Vec<char> = Vec::new();
    let mut i: usize = 0;
    assert(s@.subrange(0, 0) == Seq::<char>::empty());
    while i < s.len()
        invariant
            0 <= i <= s.len(),
            s@ == printed@,
            newline_pieces(s@.subrange(0, i as int)).len() >= 1,
            line_views(out@) == nonblank_trimmed(newline_pieces(s@.subrange(0, i as int)).drop_last()),
            cur@ == newline_pieces(s@.subrange(0, i as int)).last(),
        decreases s.len() - i,
    {
        let ghost pre = s@.subrange(0, i as int);
        let ghost nxt = s@.subrange(0, i + 1);
        assert(nxt.drop_last() == pre);
        assert(nxt.last() == s@[i as int]);
        proof {
            lemma_pieces_nonempty(pre);
        }
        let ghost pp = newline_pieces(pre);
        if s[i] == '\n' {
            let t = trimmed(&cur);
            let ghost before = out@;
            if t.len() > 0 {
                out.push(string_from_chars(&t));
                assert(line_views(out@) =~= line_views(before).push(t@));
            }
            proof {
                let np = newline_pieces(nxt);
                assert(np == pp.push(Seq::<char>::empty()));
                assert(np.drop_last() == pp);
                assert(pp.drop_last().push(pp.last()) == pp);
                assert(pp.drop_last() == pp.subrange(0, pp.len() - 1));
            }
            cur = Vec::new();
        } else {
            cur.push(s[i]);
            proof {
                let np = newline_pieces(nxt);
                assert(np == pp.update(pp.len() - 1, pp.last().push(s@[i as int])));
                assert(np.drop_last() =~= pp.drop_last());
            }
        }
        i = i + 1;
    }
    assert(s@.subrange(0, i as int) == s@);
    proof {
        lemma_pieces_nonempty(s@);
        let pp = newline_pieces(s@);
        assert(pp.drop_last().push(pp.last()) == pp);
    }
    let t = trimmed(&cur);
    let ghost before = out@;
    if t.len() > 0 {
        out.push(string_from_chars(&t));
        assert(line_views(out@) =~= line_views(before).push(t@));
    }
    out
}

/// Where a bundle keeps the property list that names it.
pub fn info_plist_path(bundle_path: &str) -> (r: String)
    ensures
        r@ == bundle_path@ + "/Contents/Info.plist"@,
{
    let mut out: Vec<char> = Vec::new();
    push_str(&mut out, bundle_path);
    push_str(&mut out, "/Contents/Info.plist");
    string_from_chars(&out)
}

/// The record of the application bundle at `bundle_path`: its name comes from
/// the path, its bundle identifier is what `PlistBuddy` printed, trimmed.
pub fn installed_app(id: usize, bundle_path: &str, printed_id: &str, size_bytes: u64) -> (r:
    InstalledApp)
    ensures
        r.id == id,
        r.name@ == bundle_name_of(bundle_path@),
        r.bundle_id@ == trim(printed_id@),
        r.app_path@ == bundle_path@,
        r.size_bytes == size_bytes,
{
    let raw = chars_of(printed_id);
    let b = trimmed(&raw);
    InstalledApp {
        id,
        name: crate::orphan::bundle_name(bundle_path),
        bundle_id: string_from_chars(&b),
        app_path: owned(bundle_path),
        size_bytes,
    }
}

/// The folders under the home folder searched for an application's leftovers.
pub fn app_trace_dirs() -> (r: Vec<&'static str>)
    ensures
        r.len() == 11,
        r@[0]@ == "Library/Application Support"@,
        r@[1]@ == "Library/Preferences"@,
        r@[2]@ == "Library/Saved Application State"@,
        r@[3]@ == "Library/Caches"@,
        r@[4]@ == "Library/Containers"@,
        r@[5]@ == "Library/Group Containers"@,
        r@[6]@ == "Library/WebKit"@,
        r@[7]@ == "Library/Application Scripts"@,
        r@[8]@ == "Library/HTTPStorages"@,
        r@[9]@ == "Library/LaunchAgents"@,
        r@[10]@ == "Library/Logs"@,
{
    vec![
        "Library/Application Support",
        "Library/Preferences",
        "Library/Saved Application State",
        "Library/Caches",
        "Library/Containers",
        "Library/Group Containers",
        "Library/WebKit",
        "Library/Application Scripts",
        "Library/HTTPStorages",
        "Library/LaunchAgents",
        "Library/Logs",
    ]
}

/// A file named `fl` (lowercased) belongs to the application with lowercased
/// bundle identifier `b` and lowercased name `n`: it is the identifier (with
/// or without a `.plist` ending) or lies in its namespace, or it is the name,
/// with or without spaces and with or without a `.plist` ending.
pub open spec fn trace_matches(fl: Seq<char>, b: Seq<char>, n: Seq<char>) -> bool {
    let stem = strip_all_suffixes(fl, ".plist"@);
    let ns = without_char(n, ' ');
    ||| b.len() > 0 && (fl == b || stem == b || has_prefix(fl, b.push('.')))
    ||| fl == n
    ||| stem == n
    ||| fl == ns
    ||| stem == ns
}

/// Collects what removing one application takes: its bundle first, then each
/// non-empty leftover, numbered from `APP_TRACE_ID_OFFSET` up.
pub struct TraceCollector {
    pub entries: Vec<CleanupEntry>,
    pub bundle_lc: Vec<char>,
    pub name_lc: Vec<char>,
    pub name_nospace: Vec<char>,
}

impl TraceCollector {
    /// Entries are numbered from the offset up, in order, none of them selected
    /// or graded as an orphan.
    pub open spec fn wf(&self) -> bool {
        &&& self.entries.len() >= 1
        &&& forall|k: int|
            0 <= k < self.entries.len() ==> (#[trigger] self.entries@[k]).id == APP_TRACE_ID_OFFSET
                + k && !self.entries@[k].selected && self.entries@[k].orphan_confidence is None
        &&& self.name_nospace@ == without_char(self.name_lc@, ' ')
    }

    /// Starts with the entry for the bundle of `app`: section "App Bundle",
    /// labelled `name.app`.
    pub fn new(app: &InstalledApp) -> (r: TraceCollector)
        ensures
            r.wf(),
            r.entries.len() == 1,
            r.entries@[0].id == APP_TRACE_ID_OFFSET,
            r.entries@[0].section@ == "App Bundle"@,
            r.entries@[0].label@ == app.name@ + ".app"@,
            r.entries@[0].path@ == app.app_path@,
            r.entries@[0].size_bytes == app.size_bytes,
            !r.entries@[0].selected,
            r.entries@[0].orphan_confidence is None,
            r.bundle_lc@ == lowercase(app.bundle_id@),
            r.name_lc@ == lowercase(app.name@),
    {
        let mut label: Vec<char> = Vec::new();
        push_chars(&mut label, &chars_of(app.name.as_str()));
        push_str(&mut label, ".app");
        let l = string_from_chars(&label);
        let first = entry(
            APP_TRACE_ID_OFFSET,
            "App Bundle",
            l.as_str(),
            app.app_path.as_str(),
            app.size_bytes,
        );
        let b = to_lower(app.bundle_id.as_str());
        let n = to_lower(app.name.as_str());
        let nc = chars_of(n.as_str());
        let ns = remove_char(&nc, ' ');
        TraceCollector {
            entries: vec![first],
            bundle_lc: chars_of(b.as_str()),
            name_lc: nc,
            name_nospace: ns,
        }
    }

    /// Whether the file `file_name` in a Library folder belongs to the application.
    pub fn matches(&self, file_name: &str) -> (r: bool)
        requires
            self.wf(),
        ensures
            r == trace_matches(lowercase(file_name@), self.bundle_lc@, self.name_lc@),
            r && !(self.bundle_lc@.len() > 0 && has_prefix(lowercase(file_name@), self.bundle_lc@))
                ==> (has_prefix(lowercase(file_name@), self.name_lc@) || has_prefix(
                lowercase(file_name@),
                self.name_nospace@,
            )) && (lowercase(file_name@).len() == self.name_lc@.len() || lowercase(
                file_name@,
            ).len() == self.name_nospace@.len() || has_suffix(lowercase(file_name@), ".plist"@)),
    {
        proof {
            if trace_matches(lowercase(file_name@), self.bundle_lc@, self.name_lc@) && !(
            self.bundle_lc@.len() > 0 && has_prefix(lowercase(file_name@), self.bundle_lc@)) {
                law_name_match_is_the_name(lowercase(file_name@), self.bundle_lc@, self.name_lc@);
            }
        }
        let low = to_lower(file_name);
        let fl = chars_of(low.as_str());
        let stem = strip_suffixes(&fl, &chars_of(".plist"));
        let b = &self.bundle_lc;
        if b.len() > 0 {
            let mut bdot = b.clone();
            bdot.push('.');
            assert(bdot@ == b@.push('.'));
            if same_chars(&fl, b) || same_chars(&stem, b) || chars_start_with(&fl, &bdot) {
                return true;
            }
        }
        same_chars(&fl, &self.name_lc) || same_chars(&stem, &self.name_lc) || same_chars(
            &fl,
            &self.name_nospace,
        ) || same_chars(&stem, &self.name_nospace)
    }

    /// Whether another entry can still be numbered.
    pub fn has_room(&self) -> (r: bool)
        ensures
            r == (self.entries.len() < usize::MAX - APP_TRACE_ID_OFFSET),
    {
        self.entries.len() < usize::MAX - APP_TRACE_ID_OFFSET
    }

    /// Adds the leftover `file_name` found in `subdir`, of `size` bytes, when
    /// it is not empty: section "App Traces", labelled `subdir/file_name`.
    pub fn add(&mut self, subdir: &str, file_name: &str, path: &str, size: u64)
        requires
            old(self).wf(),
            old(self).entries.len() < usize::MAX - APP_TRACE_ID_OFFSET,
        ensures
            final(self).wf(),
            final(self).bundle_lc == old(self).bundle_lc,
            final(self).name_lc == old(self).name_lc,
            size == 0 ==> final(self).entries == old(self).entries,
            size > 0 ==> final(self).entries.len() == old(self).entries.len() + 1
                && final(self).entries@.drop_last() == old(self).entries@ && ({
                let e = final(self).entries@.last();
                &&& e.id == APP_TRACE_ID_OFFSET + old(self).entries.len()
                &&& e.section@ == "App Traces"@
                &&& e.label@ == subdir@ + "/"@ + file_name@
                &&& e.path@ == path@
                &&& e.size_bytes == size
                &&& !e.selected
                &&& e.orphan_confidence is None
            }),
    {
        if size == 0 {
            return;
        }
        let mut label: Vec<char> = Vec::new();
        push_str(&mut label, subdir);
        push_str(&mut label, "/");
        push_str(&mut label, file_name);
        let l = string_from_chars(&label);
        let e = entry(APP_TRACE_ID_OFFSET + self.entries.len(), "App Traces", l.as_str(), path, size);
        let ghost before = self.entries@;
        self.entries.push(e);
        assert(self.entries@.drop_last() == before);
    }
}

proof fn lemma_stripped_is_prefix(s: Seq<char>, t: Seq<char>)
    ensures
        has_prefix(s, strip_all_suffixes(s, t)),
        strip_all_suffixes(s, t) != s ==> has_suffix(s, t),
    decreases s.len(),
{
    if t.len() > 0 && has_suffix(s, t) {
        let h = s.subrange(0, s.len() - t.len());
        lemma_stripped_is_prefix(h, t);
        let r = strip_all_suffixes(h, t);
        assert(s.subrange(0, r.len() as int) == h.subrange(0, r.len() as int));
    } else {
        assert(s.subrange(0, s.len() as int) == s);
    }
}

/// A file is taken for an application's leftover by name only when its
/// (lowercased) name is the application's name, with or without spaces,
/// possibly followed by `.plist` endings: it starts with that name and is
/// either exactly as long or ends in `.plist`. So a name that merely
/// contains the application's name (`"arc"` in `"com.apple.searchd"`) is not
/// taken, unless it is the bundle identifier or lies in its namespace.
pub proof fn law_name_match_is_the_name(fl: Seq<char>, b: Seq<char>, n: Seq<char>)
    requires
        trace_matches(fl, b, n),
        !(b.len() > 0 && has_prefix(fl, b)),
    ensures
        has_prefix(fl, n) || has_prefix(fl, without_char(n, ' ')),
        fl.len() == n.len() || fl.len() == without_char(n, ' ').len() || has_suffix(fl, ".plist"@),
{
    let stem = strip_all_suffixes(fl, ".plist"@);
    lemma_stripped_is_prefix(fl, ".plist"@);
    if b.len() > 0 {
        if fl == b {
            assert(fl.subrange(0, b.len() as int) == fl);
        }
        if has_prefix(fl, b.push('.')) {
            assert(fl.subrange(0, b.len() as int) == fl.subrange(0, b.len() + 1int).subrange(0, b.len() as int));
            assert(b.push('.').subrange(0, b.len() as int) == b);
        }
    }
    if fl == n || fl == without_char(n, ' ') {
        assert(fl.subrange(0, fl.len() as int) == fl);
    }
}

} // verus!
