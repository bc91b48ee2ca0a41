//! The system scan: which places are measured, in which order and under
//! which section and label, how entries are numbered, and the tests that
//! decide what a walk of the disk keeps.
use vstd::prelude::*;

use crate::measure::{last_size, SizeTable};
use crate::models::{entry, CleanupEntry, ScanEvent};
use crate::orphan::{confidence_of, confidence_tag, orphan_record};
use crate::text::{
    chars_end_with, chars_of, chars_start_with, decimal, has_prefix, has_suffix, last_segment, lowercase, owned,
    push_chars, push_decimal, push_str, same_chars, string_from_chars, to_lower, trim, trimmed,
};

verus! {

/// Hands out ids in order, from zero (the installed applications are
/// numbered with it).
pub struct IdCounter {
    pub next_id: usize,
}

/// `e` is the fresh entry with these fields.
pub open spec fn is_entry(
    e: CleanupEntry,
    id: int,
    section: Seq<char>,
    label: Seq<char>,
    path: Seq<char>,
    size: int,
) -> bool {
    &&& e.id == id
    &&& e.section@ == section
    &&& e.label@ == label
    &&& e.path@ == path
    &&& e.size_bytes == size
    &&& !e.selected
    &&& e.orphan_confidence is None
}

impl IdCounter {
    /// A counter that starts at zero.
    pub fn new() -> (r: IdCounter)
        ensures
            r.next_id == 0,
    {
        IdCounter { next_id: 0 }
    }

    /// Whether `n` more ids can be handed out.
    pub fn has_room(&self, n: usize) -> (r: bool)
        ensures
            r == (self.next_id + n <= usize::MAX),
    {
        n <= usize::MAX - self.next_id
    }

    /// The next id.
    pub fn take(&mut self) -> (r: usize)
        requires
            old(self).next_id < usize::MAX,
        ensures
            r == old(self).next_id,
            final(self).next_id == old(self).next_id + 1,
    {
        let id = self.next_id;
        self.next_id = self.next_id + 1;
        id
    }
}

/// The ids of the entries among the events `evs`, in order.
pub open spec fn entry_ids(evs: Seq<ScanEvent>) -> Seq<usize>
    decreases evs.len(),
{
    if evs.len() == 0 {
        Seq::empty()
    } else {
        match evs.last() {
            ScanEvent::Entry(e) => entry_ids(evs.drop_last()).push(e.id),
            _ => entry_ids(evs.drop_last()),
        }
    }
}

/// `ids` counts up one by one from `start`.
pub open spec fn counts_from(ids: Seq<usize>, start: int) -> bool {
    forall|k: int| 0 <= k < ids.len() ==> #[trigger] ids[k] == start + k
}

/// What a scan has sent so far is in order: its entries are numbered 0, 1,
/// 2, ... in the order sent, `next` of them; `Done` comes at most once and
/// only last, and the scan is finished exactly when it has come.
pub open spec fn scan_log_ok(sent: Seq<ScanEvent>, next: nat, finished: bool) -> bool {
    &&& counts_from(entry_ids(sent), 0)
    &&& entry_ids(sent).len() == next
    &&& forall|k: int| 0 <= k < sent.len() && (#[trigger] sent[k] is Done) ==> k == sent.len() - 1
    &&& finished == (sent.len() > 0 && sent.last() is Done)
}

proof fn lemma_send(sent: Seq<ScanEvent>, next: nat, x: ScanEvent)
    requires
        scan_log_ok(sent, next, false),
        !(x is Done),
        x matches ScanEvent::Entry(e) ==> e.id == next,
    ensures
        scan_log_ok(sent.push(x), if x is Entry { next + 1 } else { next }, false),
{
    let t = sent.push(x);
    assert(t.drop_last() == sent);
    assert forall|k: int| 0 <= k < t.len() && (#[trigger] t[k] is Done) implies k == t.len() - 1 by {
        if k < sent.len() {
            assert(t[k] == sent[k]);
        }
    }
}

proof fn lemma_send_done(sent: Seq<ScanEvent>, next: nat)
    requires
        scan_log_ok(sent, next, false),
    ensures
        scan_log_ok(sent.push(ScanEvent::Done), next, true),
{
    let t = sent.push(ScanEvent::Done);
    assert(t.drop_last() == sent);
    assert forall|k: int| 0 <= k < t.len() && (#[trigger] t[k] is Done) implies k == t.len() - 1 by {
        if k < sent.len() {
            assert(t[k] == sent[k]);
        }
    }
}

/// A finished scan sent its entries numbered 0, 1, 2, ... in the order sent,
/// so no two share an id, and `Done` exactly once, as its last event.
pub proof fn law_finished_scan_in_order(sent: Seq<ScanEvent>, next: nat)
    requires
        scan_log_ok(sent, next, true),
    ensures
        sent.len() > 0 && sent.last() is Done,
        forall|k: int| 0 <= k < sent.len() - 1 ==> !(#[trigger] sent[k] is Done),
        forall|k: int| 0 <= k < entry_ids(sent).len() ==> #[trigger] entry_ids(sent)[k] == k,
        forall|i: int, j: int|
            0 <= i < j < entry_ids(sent).len() ==> #[trigger] entry_ids(sent)[i] != #[trigger] entry_ids(
                sent,
            )[j],
        entry_ids(sent).len() == next,
{
}

/// One run of the system scan: it makes every event the scan sends, in
/// order, numbering the entries as it goes. The events it has made are kept
/// (as a ghost log) so that its invariant can speak of all of them.
pub struct ScanRun {
    next_id: usize,
    sent: Ghost<Seq<ScanEvent>>,
    finished: bool,
}

impl ScanRun {
    /// Entries are numbered 0, 1, 2, ... in the order sent, and `Done`
    /// comes once, last.
    #[verifier::type_invariant]
    spec fn in_order(self) -> bool {
        scan_log_ok(self.sent@, self.next_id as nat, self.finished)
    }

    /// The events made so far, in order.
    pub closed spec fn sent(self) -> Seq<ScanEvent> {
        self.sent@
    }

    /// The id of the next entry.
    pub closed spec fn next(self) -> nat {
        self.next_id as nat
    }

    /// Whether `Done` has been made.
    pub closed spec fn finished(self) -> bool {
        self.finished
    }

    /// A run that has sent nothing.
    pub fn new() -> (r: ScanRun)
        ensures
            r.sent() == Seq::<ScanEvent>::empty(),
            r.next() == 0,
            !r.finished(),
            scan_log_ok(r.sent(), r.next(), r.finished()),
    {
        ScanRun { next_id: 0, sent: Ghost(Seq::empty()), finished: false }
    }

    /// Whether `n` more entries can be numbered.
    pub fn has_room(&self, n: usize) -> (r: bool)
        ensures
            r == (self.next() + n <= usize::MAX),
    {
        n <= usize::MAX - self.next_id
    }

    /// Whether `Done` has been made.
    pub fn is_finished(&self) -> (r: bool)
        ensures
            r == self.finished(),
    {
        self.finished
    }

    /// The progress report `msg`.
    pub fn progress(&mut self, msg: String) -> (r: ScanEvent)
        requires
            !old(self).finished(),
        ensures
            r == ScanEvent::Progress(msg),
            final(self).sent() == old(self).sent().push(r),
            final(self).next() == old(self).next(),
            !final(self).finished(),
            scan_log_ok(final(self).sent(), final(self).next(), final(self).finished()),
    {
        proof {
            use_type_invariant(&*self);
        }
        let r = ScanEvent::Progress(msg);
        proof {
            lemma_send(self.sent@, self.next_id as nat, r);
        }
        let ghost log = self.sent@.push(r);
        *self = ScanRun { next_id: self.next_id, sent: Ghost(log), finished: false };
        r
    }

    /// The entry for a place, with the next id.
    pub fn entry(&mut self, section: &str, label: &str, path: &str, size: u64) -> (r: ScanEvent)
        requires
            !old(self).finished(),
            old(self).next() < usize::MAX,
        ensures
            (r matches ScanEvent::Entry(e) && is_entry(e, old(self).next() as int, section@, label@, path@, size as int)),
            final(self).sent() == old(self).sent().push(r),
            final(self).next() == old(self).next() + 1,
            !final(self).finished(),
            scan_log_ok(final(self).sent(), final(self).next(), final(self).finished()),
    {
        proof {
            use_type_invariant(&*self);
        }
        let r = ScanEvent::Entry(entry(self.next_id, section, label, path, size));
        proof {
            lemma_send(self.sent@, self.next_id as nat, r);
        }
        let ghost log = self.sent@.push(r);
        *self = ScanRun { next_id: self.next_id + 1, sent: Ghost(log), finished: false };
        r
    }

    /// The entry for a place that is listed only when it holds something.
    pub fn entry_if_nonempty(&mut self, section: &str, label: &str, path: &str, size: u64) -> (r:
        Option<ScanEvent>)
        requires
            !old(self).finished(),
            old(self).next() < usize::MAX,
        ensures
            size == 0 ==> r is None && final(self).sent() == old(self).sent() && final(self).next()
                == old(self).next(),
            size > 0 ==> (r matches Some(ScanEvent::Entry(e)) && is_entry(
                e,
                old(self).next() as int,
                section@,
                label@,
                path@,
                size as int,
            )) && final(self).sent() == old(self).sent().push(r->0) && final(self).next() == old(
                self,
            ).next() + 1,
            !final(self).finished(),
            scan_log_ok(final(self).sent(), final(self).next(), final(self).finished()),
    {
        proof {
            use_type_invariant(&*self);
        }
        if size > 0 {
            Some(self.entry(section, label, path, size))
        } else {
            None
        }
    }

    /// The entry for an orphaned folder of `size` bytes, with the next id;
    /// none when it is empty (see `orphan_record`).
    pub fn orphan(&mut self, name: &str, nl: &str, path: &str, size: u64) -> (r: Option<ScanEvent>)
        requires
            !old(self).finished(),
            old(self).next() < usize::MAX,
        ensures
            size == 0 ==> r is None && final(self).sent() == old(self).sent() && final(self).next()
                == old(self).next(),
            size > 0 ==> (r matches Some(ScanEvent::Entry(e)) && e.id == old(self).next()
                && e.section@ == "Orphan App Data"@ && e.label@ == confidence_tag(
                confidence_of(nl@),
            ) + name@ && e.path@ == path@ && e.size_bytes == size && !e.selected
                && e.orphan_confidence == Some(confidence_of(nl@))) && final(self).sent() == old(
                self,
            ).sent().push(r->0) && final(self).next() == old(self).next() + 1,
            !final(self).finished(),
            scan_log_ok(final(self).sent(), final(self).next(), final(self).finished()),
    {
        proof {
            use_type_invariant(&*self);
        }
        match orphan_record(self.next_id, name, nl, path, size) {
            Some(e) => {
                let r = ScanEvent::Entry(e);
                proof {
                    lemma_send(self.sent@, self.next_id as nat, r);
                }
                let ghost log = self.sent@.push(r);
                *self = ScanRun { next_id: self.next_id + 1, sent: Ghost(log), finished: false };
                Some(r)
            },
            None => None,
        }
    }

    /// One entry per place of `items` (label, path), in order, each with the
    /// size that `sizes` holds for its path (0 when none), numbered on.
    pub fn measured(&mut self, section: &str, items: &Vec<(String, String)>, sizes: &SizeTable) -> (r:
        Vec<ScanEvent>)
        requires
            !old(self).finished(),
            old(self).next() + items.len() <= usize::MAX,
            sizes.paths.len() == sizes.sizes.len(),
        ensures
            r.len() == items.len(),
            forall|k: int|
                0 <= k < items.len() ==> (#[trigger] r@[k] matches ScanEvent::Entry(e) && is_entry(
                    e,
                    old(self).next() + k,
                    section@,
                    items@[k].0@,
                    items@[k].1@,
                    match last_size(sizes.keys(), sizes.sizes@, items@[k].1@) {
                        Some(s) => s as int,
                        None => 0,
                    },
                )),
            final(self).sent() == old(self).sent() + r@,
            final(self).next() == old(self).next() + items.len(),
            !final(self).finished(),
            scan_log_ok(final(self).sent(), final(self).next(), final(self).finished()),
    {
        proof {
            use_type_invariant(&*self);
        }
        let ghost start = self.sent@;
        let first = self.next_id;
        let mut next = self.next_id;
        let mut out: Vec<ScanEvent> = Vec::new();
        let mut k: usize = 0;
        while k < items.len()
            invariant
                0 <= k <= items.len(),
                next == first + k,
                first + items.len() <= usize::MAX,
                sizes.paths.len() == sizes.sizes.len(),
                out.len() == k,
                scan_log_ok(start + out@, next as nat, false),
                forall|m: int|
                    0 <= m < k ==> (#[trigger] out@[m] matches ScanEvent::Entry(e) && is_entry(
                        e,
                        first + m,
                        section@,
                        items@[m].0@,
                        items@[m].1@,
                        match last_size(sizes.keys(), sizes.sizes@, items@[m].1@) {
                            Some(s) => s as int,
                            None => 0,
                        },
                    )),
            decreases items.len() - k,
        {
            let size = sizes.size_or_zero(items[k].1.as_str());
            let ev = ScanEvent::Entry(entry(next, section, items[k].0.as_str(), items[k].1.as_str(), size));
            proof {
                lemma_send(start + out@, next as nat, ev);
                assert((start + out@).push(ev) == start + out@.push(ev));
            }
            out.push(ev);
            next = next + 1;
            k = k + 1;
        }
        *self = ScanRun { next_id: next, sent: Ghost(start + out@), finished: false };
        out
    }

    /// One entry per path of `paths`, all with the same label, in order,
    /// each with the size that `sizes` holds for it, numbered on.
    pub fn paths(&mut self, section: &str, label: &str, paths: &Vec<String>, sizes: &SizeTable) -> (r:
        Vec<ScanEvent>)
        requires
            !old(self).finished(),
            old(self).next() + paths.len() <= usize::MAX,
            sizes.paths.len() == sizes.sizes.len(),
        ensures
            r.len() == paths.len(),
            forall|k: int|
                0 <= k < paths.len() ==> (#[trigger] r@[k] matches ScanEvent::Entry(e) && is_entry(
                    e,
                    old(self).next() + k,
                    section@,
                    label@,
                    paths@[k]@,
                    match last_size(sizes.keys(), sizes.sizes@, paths@[k]@) {
                        Some(s) => s as int,
                        None => 0,
                    },
                )),
            final(self).sent() == old(self).sent() + r@,
            final(self).next() == old(self).next() + paths.len(),
            !final(self).finished(),
            scan_log_ok(final(self).sent(), final(self).next(), final(self).finished()),
    {
        proof {
            use_type_invariant(&*self);
        }
        let ghost start = self.sent@;
        let first = self.next_id;
        let mut next = self.next_id;
        let mut out: Vec<ScanEvent> = Vec::new();
        let mut k: usize = 0;
        while k < paths.len()
            invariant
                0 <= k <= paths.len(),
                next == first + k,
                first + paths.len() <= usize::MAX,
                sizes.paths.len() == sizes.sizes.len(),
                out.len() == k,
                scan_log_ok(start + out@, next as nat, false),
                forall|m: int|
                    0 <= m < k ==> (#[trigger] out@[m] matches ScanEvent::Entry(e) && is_entry(
                        e,
                        first + m,
                        section@,
                        label@,
                        paths@[m]@,
                        match last_size(sizes.keys(), sizes.sizes@, paths@[m]@) {
                            Some(s) => s as int,
                            None => 0,
                        },
                    )),
            decreases paths.len() - k,
        {
            let size = sizes.size_or_zero(paths[k].as_str());
            let ev = ScanEvent::Entry(entry(next, section, label, paths[k].as_str(), size));
            proof {
                lemma_send(start + out@, next as nat, ev);
                assert((start + out@).push(ev) == start + out@.push(ev));
            }
            out.push(ev);
            next = next + 1;
            k = k + 1;
        }
        *self = ScanRun { next_id: next, sent: Ghost(start + out@), finished: false };
        out
    }

    /// The report that the scan is complete; nothing follows it.
    pub fn done(&mut self) -> (r: ScanEvent)
        requires
            !old(self).finished(),
        ensures
            r is Done,
            final(self).sent() == old(self).sent().push(r),
            final(self).next() == old(self).next(),
            final(self).finished(),
            scan_log_ok(final(self).sent(), final(self).next(), final(self).finished()),
    {
        proof {
            use_type_invariant(&*self);
            lemma_send_done(self.sent@, self.next_id as nat);
        }
        let ghost log = self.sent@.push(ScanEvent::Done);
        *self = ScanRun { next_id: self.next_id, sent: Ghost(log), finished: true };
        ScanEvent::Done
    }
}

/// One step of the system scan.
pub enum ScanStep {
    /// Measure each (label, path) of `items` and list it under `section`
    /// (only when it holds something, if `only_nonempty`), after reporting
    /// `progress` if there is one.
    Measure { section: String, progress: Option<String>, items: Vec<(String, String)>, only_nonempty: bool },
    /// Look for dependency folders under `projects`, listed under `section`.
    ProjectDeps { progress: String, projects: String, section: String },
    /// Measure the Homebrew cache that `brew --cache` names, listed under
    /// `section` as `label`.
    Homebrew { progress: String, section: String, label: String },
    /// Ask Docker how much it could reclaim, listed under `section` as
    /// `label`, with no path.
    Docker { progress: String, section: String, label: String },
    /// Sum the old installers in `downloads`, listed under `section`.
    StaleDownloads { progress: String, downloads: String, section: String },
    /// List the files over 500 MB under `home`, under `section`.
    LargeFiles { progress: String, home: String, section: String },
    /// Look for orphaned application data.
    Orphans,
}

/// The (label, path) pairs as texts.
pub open spec fn pair_views(v: Seq<(String, String)>) -> Seq<(Seq<char>, Seq<char>)> {
    Seq::new(v.len(), |i: int| (v[i].0@, v[i].1@))
}

/// `s` is the measuring step with these texts.
pub open spec fn is_measure(
    s: ScanStep,
    section: Seq<char>,
    progress: Option<Seq<char>>,
    items: Seq<(Seq<char>, Seq<char>)>,
    only_nonempty: bool,
) -> bool {
    s matches ScanStep::Measure { section: sec, progress: pr, items: it, only_nonempty: o } && sec@
        == section && (match (pr, progress) {
        (Some(a), Some(b)) => a@ == b,
        (None, None) => true,
        _ => false,
    }) && pair_views(it@) == items && o == only_nonempty
}

fn place(label: &str, home: &str, suffix: &str) -> (r: (String, String))
    ensures
        r.0@ == label@,
        r.1@ == home@ + suffix@,
{
    let mut p: Vec<char> = Vec::new();
    push_str(&mut p, home);
    push_str(&mut p, suffix);
    (owned(label), string_from_chars(&p))
}

fn under(home: &str, suffix: &str) -> (r: String)
    ensures
        r@ == home@ + suffix@,
{
    let mut p: Vec<char> = Vec::new();
    push_str(&mut p, home);
    push_str(&mut p, suffix);
    string_from_chars(&p)
}

fn measure(section: &str, progress: Option<&str>, items: Vec<(String, String)>, only_nonempty: bool) -> (r:
    ScanStep)
    ensures
        r matches ScanStep::Measure { section: sec, progress: pr, items: it, only_nonempty: o } && sec@
            == section@ && (match (pr, progress) {
            (Some(a), Some(b)) => a@ == b@,
            (None, None) => true,
            _ => false,
        }) && it == items && o == only_nonempty,
{
    let pr = match progress {
        Some(p) => Some(owned(p)),
        None => None,
    };
    ScanStep::Measure { section: owned(section), progress: pr, items, only_nonempty }
}

/// The steps of the system scan for the home folder `home`, in order.
pub fn scan_plan(home: &str) -> (r: Vec<ScanStep>)
    ensures
        r.len() == 16,
        is_measure(
            r@[0],
            "System Caches"@,
            Some("Scanning System Caches..."@),
            seq![("~/Library/Caches"@, home@ + "/Library/Caches"@), ("~/.cache"@, home@ + "/.cache"@)],
            false,
        ),
        is_measure(
            r@[1],
            "Build Tools"@,
            Some("Scanning Build Tools..."@),
            seq![
                ("Gradle caches"@, home@ + "/.gradle/caches"@),
                ("Gradle wrappers"@, home@ + "/.gradle/wrapper"@),
                ("Cargo registry"@, home@ + "/.cargo/registry"@),
                ("Xcode DerivedData"@, home@ + "/Library/Developer/Xcode/DerivedData"@),
                ("Xcode Archives"@, home@ + "/Library/Developer/Xcode/Archives"@),
                ("iOS Device Logs"@, home@ + "/Library/Developer/Xcode/iOS Device Logs"@),
                ("Swift Package cache"@, home@ + "/.swiftpm"@),
            ],
            false,
        ),
        is_measure(
            r@[2],
            "Build Tools"@,
            Some("Scanning iOS Simulators..."@),
            seq![("CoreSimulator Devices"@, home@ + "/Library/Developer/CoreSimulator/Devices"@)],
            false,
        ),
        is_measure(
            r@[3],
            "Go"@,
            Some("Scanning Go..."@),
            seq![("Go module cache"@, home@ + "/go/pkg/mod"@), ("Go compiled binaries"@, home@ + "/go/bin"@)],
            false,
        ),
        is_measure(
            r@[4],
            "Python"@,
            Some("Scanning Python..."@),
            seq![("pip cache"@, home@ + "/.cache/pip"@), ("pip cache (macOS)"@, home@ + "/Library/Caches/pip"@)],
            false,
        ),
        is_measure(
            r@[5],
            "Package Managers"@,
            Some("Scanning CocoaPods..."@),
            seq![("CocoaPods repo cache"@, home@ + "/.cocoapods/repos"@)],
            false,
        ),
        r@[6] matches ScanStep::ProjectDeps { progress, projects, section } && progress@
            == "Searching project dependencies..."@ && projects@ == home@ + "/Projects"@
            && section@ == "Project Deps"@,
        is_measure(
            r@[7],
            "Package Managers"@,
            Some("Scanning npm cache..."@),
            seq![("npm cache"@, home@ + "/.npm/_cacache"@)],
            false,
        ),
        r@[8] matches ScanStep::Homebrew { progress, section, label } && progress@
            == "Scanning Homebrew cache..."@ && section@ == "Package Managers"@ && label@
            == "Homebrew cache"@,
        r@[9] matches ScanStep::Docker { progress, section, label } && progress@
            == "Checking Docker..."@ && section@ == "Package Managers"@ && label@
            == "Docker (reclaimable)"@,
        is_measure(
            r@[10],
            "Logs & Temp"@,
            Some("Scanning Logs & Temp..."@),
            seq![("~/Library/Logs"@, home@ + "/Library/Logs"@), ("/private/tmp"@, "/private/tmp"@)],
            false,
        ),
        is_measure(
            r@[11],
            "Logs & Temp"@,
            None,
            seq![("Trash contents (~/.Trash)"@, home@ + "/.Trash"@)],
            true,
        ),
        is_measure(
            r@[12],
            "iOS"@,
            None,
            seq![("iOS Backups (MobileSync)"@, home@ + "/Library/Application Support/MobileSync/Backup"@)],
            true,
        ),
        r@[13] matches ScanStep::StaleDownloads { progress, downloads, section } && progress@
            == "Scanning Downloads..."@ && downloads@ == home@ + "/Downloads"@ && section@
            == "Downloads"@,
        r@[14] matches ScanStep::LargeFiles { progress, home: h, section } && progress@
            == "Scanning for large files (>500 MB)..."@ && h@ == home@ && section@
            == "Large Files"@,
        r@[15] is Orphans,
{
    let mut plan: Vec<ScanStep> = Vec::new();

    let items = vec![place("~/Library/Caches", home, "/Library/Caches"), place("~/.cache", home, "/.cache")];
    assert(pair_views(items@) =~= seq![("~/Library/Caches"@, home@ + "/Library/Caches"@), ("~/.cache"@, home@ + "/.cache"@)]);
    plan.push(measure("System Caches", Some("Scanning System Caches..."), items, false));

    let items = vec![
        place("Gradle caches", home, "/.gradle/caches"),
        place("Gradle wrappers", home, "/.gradle/wrapper"),
        place("Cargo registry", home, "/.cargo/registry"),
        place("Xcode DerivedData", home, "/Library/Developer/Xcode/DerivedData"),
        place("Xcode Archives", home, "/Library/Developer/Xcode/Archives"),
        place("iOS Device Logs", home, "/Library/Developer/Xcode/iOS Device Logs"),
        place("Swift Package cache", home, "/.swiftpm"),
    ];
    assert(pair_views(items@) =~= seq![
        ("Gradle caches"@, home@ + "/.gradle/caches"@),
        ("Gradle wrappers"@, home@ + "/.gradle/wrapper"@),
        ("Cargo registry"@, home@ + "/.cargo/registry"@),
        ("Xcode DerivedData"@, home@ + "/Library/Developer/Xcode/DerivedData"@),
        ("Xcode Archives"@, home@ + "/Library/Developer/Xcode/Archives"@),
        ("iOS Device Logs"@, home@ + "/Library/Developer/Xcode/iOS Device Logs"@),
        ("Swift Package cache"@, home@ + "/.swiftpm"@),
    ]);
    plan.push(measure("Build Tools", Some("Scanning Build Tools..."), items, false));

    let items = vec![place("CoreSimulator Devices", home, "/Library/Developer/CoreSimulator/Devices")];
    assert(pair_views(items@) =~= seq![("CoreSimulator Devices"@, home@ + "/Library/Developer/CoreSimulator/Devices"@)]);
    plan.push(measure("Build Tools", Some("Scanning iOS Simulators..."), items, false));

    let items = vec![place("Go module cache", home, "/go/pkg/mod"), place("Go compiled binaries", home, "/go/bin")];
    assert(pair_views(items@) =~= seq![("Go module cache"@, home@ + "/go/pkg/mod"@), ("Go compiled binaries"@, home@ + "/go/bin"@)]);
    plan.push(measure("Go", Some("Scanning Go..."), items, false));

    let items = vec![place("pip cache", home, "/.cache/pip"), place("pip cache (macOS)", home, "/Library/Caches/pip")];
    assert(pair_views(items@) =~= seq![("pip cache"@, home@ + "/.cache/pip"@), ("pip cache (macOS)"@, home@ + "/Library/Caches/pip"@)]);
    plan.push(measure("Python", Some("Scanning Python..."), items, false));

    let items = vec![place("CocoaPods repo cache", home, "/.cocoapods/repos")];
    assert(pair_views(items@) =~= seq![("CocoaPods repo cache"@, home@ + "/.cocoapods/repos"@)]);
    plan.push(measure("Package Managers", Some("Scanning CocoaPods..."), items, false));

    plan.push(ScanStep::ProjectDeps {
        progress: owned("Searching project dependencies..."),
        projects: under(home, "/Projects"),
        section: owned("Project Deps"),
    });

    let items = vec![place("npm cache", home, "/.npm/_cacache")];
    assert(pair_views(items@) =~= seq![("npm cache"@, home@ + "/.npm/_cacache"@)]);
    plan.push(measure("Package Managers", Some("Scanning npm cache..."), items, false));

    plan.push(ScanStep::Homebrew {
        progress: owned("Scanning Homebrew cache..."),
        section: owned("Package Managers"),
        label: owned("Homebrew cache"),
    });
    plan.push(ScanStep::Docker {
        progress: owned("Checking Docker..."),
        section: owned("Package Managers"),
        label: owned("Docker (reclaimable)"),
    });

    let items = vec![place("~/Library/Logs", home, "/Library/Logs"), (owned("/private/tmp"), owned("/private/tmp"))];
    assert(pair_views(items@) =~= seq![("~/Library/Logs"@, home@ + "/Library/Logs"@), ("/private/tmp"@, "/private/tmp"@)]);
    plan.push(measure("Logs & Temp", Some("Scanning Logs & Temp..."), items, false));

    let items = vec![place("Trash contents (~/.Trash)", home, "/.Trash")];
    assert(pair_views(items@) =~= seq![("Trash contents (~/.Trash)"@, home@ + "/.Trash"@)]);
    plan.push(measure("Logs & Temp", None, items, true));

    let items = vec![place("iOS Backups (MobileSync)", home, "/Library/Application Support/MobileSync/Backup")];
    assert(pair_views(items@) =~= seq![("iOS Backups (MobileSync)"@, home@ + "/Library/Application Support/MobileSync/Backup"@)]);
    plan.push(measure("iOS", None, items, true));

    plan.push(ScanStep::StaleDownloads {
        progress: owned("Scanning Downloads..."),
        downloads: under(home, "/Downloads"),
        section: owned("Downloads"),
    });
    plan.push(ScanStep::LargeFiles {
        progress: owned("Scanning for large files (>500 MB)..."),
        home: owned(home),
        section: owned("Large Files"),
    });
    plan.push(ScanStep::Orphans);
    plan
}

/// The kinds of dependency folders searched for under the projects folder:
/// (label, folder name), in order.
pub fn project_dep_patterns() -> (r: Vec<(&'static str, &'static str)>)
    ensures
        r.len() == 10,
        r@[0].0@ == "node_modules"@ && r@[0].1@ == "node_modules"@,
        r@[1].0@ == "target (Rust)"@ && r@[1].1@ == "target"@,
        r@[2].0@ == "build dirs"@ && r@[2].1@ == "build"@,
        r@[3].0@ == ".dart_tool"@ && r@[3].1@ == ".dart_tool"@,
        r@[4].0@ == "Pods (CocoaPods)"@ && r@[4].1@ == "Pods"@,
        r@[5].0@ == ".gradle (per-project)"@ && r@[5].1@ == ".gradle"@,
        r@[6].0@ == ".m2 (Maven)"@ && r@[6].1@ == ".m2"@,
        r@[7].0@ == "__pycache__"@ && r@[7].1@ == "__pycache__"@,
        r@[8].0@ == ".venv (Python)"@ && r@[8].1@ == ".venv"@,
        r@[9].0@ == "vendor dirs"@ && r@[9].1@ == "vendor"@,
{
    vec![
        ("node_modules", "node_modules"),
        ("target (Rust)", "target"),
        ("build dirs", "build"),
        (".dart_tool", ".dart_tool"),
        ("Pods (CocoaPods)", "Pods"),
        (".gradle (per-project)", ".gradle"),
        (".m2 (Maven)", ".m2"),
        ("__pycache__", "__pycache__"),
        (".venv (Python)", ".venv"),
        ("vendor dirs", "vendor"),
    ]
}

/// How deep the search for dependency folders goes.
pub const PROJECT_SEARCH_DEPTH: u32 = 5;

/// The Homebrew cache that `brew --cache` printed, trimmed; none when blank.
pub fn homebrew_cache(printed: &str) -> (r: Option<String>)
    ensures
        trim(printed@).len() == 0 ==> r is None,
        trim(printed@).len() > 0 ==> (r matches Some(p) && p@ == trim(printed@)),
{
    let t = trimmed(&chars_of(printed));
    if t.len() == 0 {
        None
    } else {
        Some(string_from_chars(&t))
    }
}

/// The file endings of installers and archives that go stale in Downloads,
/// as texts.
pub open spec fn stale_ending_list() -> Seq<Seq<char>> {
    seq![".dmg"@, ".pkg"@, ".zip"@, ".tgz"@, ".iso"@, ".tar.gz"@, ".tar.bz2"@]
}

/// The file endings of installers and archives that go stale in Downloads.
pub fn stale_extensions() -> (r: Vec<&'static str>)
    ensures
        r.len() == 7,
        forall|k: int| 0 <= k < 7 ==> (#[trigger] r@[k])@ == stale_ending_list()[k],
        r@[0]@ == ".dmg"@,
        r@[1]@ == ".pkg"@,
        r@[2]@ == ".zip"@,
        r@[3]@ == ".tgz"@,
        r@[4]@ == ".iso"@,
        r@[5]@ == ".tar.gz"@,
        r@[6]@ == ".tar.bz2"@,
{
    vec![".dmg", ".pkg", ".zip", ".tgz", ".iso", ".tar.gz", ".tar.bz2"]
}

/// The lowercased file name ends with one of the stale endings.
pub open spec fn has_stale_ending(fl: Seq<char>) -> bool {
    ||| has_suffix(fl, ".dmg"@)
    ||| has_suffix(fl, ".pkg"@)
    ||| has_suffix(fl, ".zip"@)
    ||| has_suffix(fl, ".tgz"@)
    ||| has_suffix(fl, ".iso"@)
    ||| has_suffix(fl, ".tar.gz"@)
    ||| has_suffix(fl, ".tar.bz2"@)
}

/// Whether the file `file_name` is an installer or archive, by its lowercased name.
pub fn is_stale_installer(file_name: &str) -> (r: bool)
    ensures
        r == has_stale_ending(lowercase(file_name@)),
        r == exists|k: int|
            0 <= k < stale_ending_list().len() && has_suffix(
                lowercase(file_name@),
                #[trigger] stale_ending_list()[k],
            ),
{
    proof {
        law_stale_exactly_the_listed_endings(lowercase(file_name@));
    }
    let low = to_lower(file_name);
    let fl = chars_of(low.as_str());
    chars_end_with(&fl, &chars_of(".dmg")) || chars_end_with(&fl, &chars_of(".pkg"))
        || chars_end_with(&fl, &chars_of(".zip")) || chars_end_with(&fl, &chars_of(".tgz"))
        || chars_end_with(&fl, &chars_of(".iso")) || chars_end_with(&fl, &chars_of(".tar.gz"))
        || chars_end_with(&fl, &chars_of(".tar.bz2"))
}

/// Thirty days in seconds.
pub const THIRTY_DAYS_SECS: u64 = 2592000;

/// Whether an age of `secs` seconds and `nanos` nanoseconds is more than thirty days.
pub fn older_than_thirty_days(secs: u64, nanos: u32) -> (r: bool)
    requires
        nanos < 1_000_000_000,
    ensures
        r == (secs * 1_000_000_000 + nanos > THIRTY_DAYS_SECS * 1_000_000_000),
{
    secs > THIRTY_DAYS_SECS || (secs == THIRTY_DAYS_SECS && nanos > 0)
}

/// The label of the stale-downloads entry.
pub fn stale_label(count: usize) -> (r: String)
    ensures
        r@ == "Stale installers (>30d, "@ + decimal(count as nat) + " files)"@,
{
    let mut out: Vec<char> = Vec::new();
    push_str(&mut out, "Stale installers (>30d, ");
    push_decimal(&mut out, count as u64);
    push_str(&mut out, " files)");
    string_from_chars(&out)
}

/// Files larger than this are listed as large files (500 MiB).
pub const LARGE_FILE_BYTES: u64 = 524288000;

/// Whether a file of `len` bytes is a large file.
pub fn is_large_file(len: u64) -> (r: bool)
    ensures
        r == (len > LARGE_FILE_BYTES),
{
    len > LARGE_FILE_BYTES
}

/// A folder whose contents the large-file search leaves out.
pub open spec fn is_skipped_dir_name(name: Seq<char>) -> bool {
    ||| name == ".Trash"@
    ||| name == "CoreSimulator"@
    ||| name == "Caches"@
    ||| name == "node_modules"@
    ||| name == "registry"@
    ||| name == "objects"@
}

/// Some folder of the relative path `rel` (a piece that a `/` ends) is one
/// that the large-file search leaves out.
pub open spec fn in_skipped_dir(rel: Seq<char>) -> bool
    decreases rel.len(),
{
    if rel.len() == 0 {
        false
    } else if rel.last() == '/' {
        in_skipped_dir(rel.drop_last()) || is_skipped_dir_name(last_segment(rel.drop_last(), '/'))
    } else {
        in_skipped_dir(rel.drop_last())
    }
}

/// `path` below the folder `home`, or all of it when it is not below it.
pub open spec fn below_home(home: Seq<char>, path: Seq<char>) -> Seq<char> {
    if has_prefix(path, home.push('/')) {
        path.subrange(home.len() + 1int, path.len() as int)
    } else {
        path
    }
}

/// Whether `name` is a folder whose contents the large-file search leaves out.
pub fn is_skipped_dir(name: &Vec<char>) -> (r: bool)
    ensures
        r == is_skipped_dir_name(name@),
{
    same_chars(name, &chars_of(".Trash")) || same_chars(name, &chars_of("CoreSimulator"))
        || same_chars(name, &chars_of("Caches")) || same_chars(name, &chars_of("node_modules"))
        || same_chars(name, &chars_of("registry")) || same_chars(name, &chars_of("objects"))
}

/// Whether the file at `path` lies, below `home`, inside a folder that the
/// large-file search leaves out (`.Trash`, `CoreSimulator`, `Caches`,
/// `node_modules`, `registry`, `objects`), at any depth.
pub fn under_skipped_dir(home: &str, path: &str) -> (r: bool)
    ensures
        r == in_skipped_dir(below_home(home@, path@)),
{
    let label = large_file_label(home, path);
    let rel = chars_of(label.as_str());
    assert(rel@ == below_home(home@, path@));
    let mut skipped = false;
    let mut cur: Vec<char> = Vec::new();
    let mut i: usize = 0;
    assert(rel@.subrange(0, 0) == Seq::<char>::empty());
    while i < rel.len()
        invariant
            0 <= i <= rel.len(),
            skipped == in_skipped_dir(rel@.subrange(0, i as int)),
            cur@ == last_segment(rel@.subrange(0, i as int), '/'),
        decreases rel.len() - i,
    {
        let ghost q = rel@.subrange(0, i + 1);
        assert(q.drop_last() == rel@.subrange(0, i as int));
        assert(q.last() == rel@[i as int]);
        if rel[i] == '/' {
            skipped = skipped || is_skipped_dir(&cur);
            cur = Vec::new();
        } else {
            cur.push(rel[i]);
        }
        i = i + 1;
    }
    assert(rel@.subrange(0, rel.len() as int) == rel@);
    skipped
}

/// Whether the walk lists an item as a large file: a file over 500 MB that
/// lies below `home` in no folder that the search leaves out.
pub fn large_file_kept(home: &str, path: &str, is_file: bool, len: u64) -> (r: bool)
    ensures
        r == (is_file && len > LARGE_FILE_BYTES && !in_skipped_dir(below_home(home@, path@))),
{
    is_file && is_large_file(len) && !under_skipped_dir(home, path)
}

/// Whether the walk of Downloads lists an item as a stale installer: a file
/// with an installer or archive ending whose age (seconds and nanoseconds
/// since it was modified, none when unknown) is over thirty days.
pub fn stale_download_kept(is_file: bool, file_name: &str, age: Option<(u64, u32)>) -> (r: bool)
    requires
        age matches Some((_, n)) ==> n < 1_000_000_000,
    ensures
        r == (is_file && has_stale_ending(lowercase(file_name@)) && match age {
            Some((s, n)) => s * 1_000_000_000 + n > THIRTY_DAYS_SECS * 1_000_000_000,
            None => false,
        }),
{
    if !is_file || !is_stale_installer(file_name) {
        return false;
    }
    match age {
        Some((secs, nanos)) => older_than_thirty_days(secs, nanos),
        None => false,
    }
}

/// The stale installers found, none when there are none.
pub fn stale_found(files: Vec<String>) -> (r: Option<Vec<String>>)
    ensures
        files.len() == 0 ==> r is None,
        files.len() > 0 ==> r == Some(files),
{
    if files.len() == 0 {
        None
    } else {
        Some(files)
    }
}

/// The label of a large file: its path below the home folder, or the whole
/// path when it is not below it.
pub fn large_file_label(home: &str, path: &str) -> (r: String)
    ensures
        has_prefix(path@, home@.push('/')) ==> r@ == path@.subrange(home@.len() + 1int, path@.len() as int),
        !has_prefix(path@, home@.push('/')) ==> r@ == path@,
{
    let mut prefix = chars_of(home);
    prefix.push('/');
    let p = chars_of(path);
    if chars_start_with(&p, &prefix) {
        let mut out: Vec<char> = Vec::new();
        let mut k: usize = prefix.len();
        while k < p.len()
            invariant
                prefix.len() <= k <= p.len(),
                out@ == p@.subrange(prefix.len() as int, k as int),
            decreases p.len() - k,
        {
            out.push(p[k]);
            k = k + 1;
            assert(p@.subrange(prefix.len() as int, k as int) == p@.subrange(prefix.len() as int, k - 1).push(p@[k - 1]));
        }
        string_from_chars(&out)
    } else {
        string_from_chars(&p)
    }
}

/// A (lowercased) file name counts as a stale installer exactly when it ends
/// with one of the endings that `stale_extensions` lists: `.dmg`, `.pkg`,
/// `.zip`, `.tgz`, `.iso`, `.tar.gz` or `.tar.bz2`.
pub proof fn law_stale_exactly_the_listed_endings(fl: Seq<char>)
    ensures
        has_stale_ending(fl) <==> exists|k: int|
            0 <= k < stale_ending_list().len() && has_suffix(fl, #[trigger] stale_ending_list()[k]),
        stale_ending_list().len() == 7,
{
    let l = stale_ending_list();
    if has_stale_ending(fl) {
        if has_suffix(fl, ".dmg"@) {
            assert(l[0] == ".dmg"@);
        } else if has_suffix(fl, ".pkg"@) {
            assert(l[1] == ".pkg"@);
        } else if has_suffix(fl, ".zip"@) {
            assert(l[2] == ".zip"@);
        } else if has_suffix(fl, ".tgz"@) {
            assert(l[3] == ".tgz"@);
        } else if has_suffix(fl, ".iso"@) {
            assert(l[4] == ".iso"@);
        } else if has_suffix(fl, ".tar.gz"@) {
            assert(l[5] == ".tar.gz"@);
        } else {
            assert(l[6] == ".tar.bz2"@);
        }
    }
    if exists|k: int| 0 <= k < l.len() && has_suffix(fl, #[trigger] l[k]) {
        let k = choose|k: int| 0 <= k < l.len() && has_suffix(fl, #[trigger] l[k]);
        assert(0 <= k < 7);
    }
}

} // verus!
