use vstd::prelude::*;

verus! {

/// What came of one path that a glob pattern yielded.
#[derive(Clone, Copy, Debug, PartialEq, Eq, Structural)]
pub enum EntryOutcome {
    /// The pattern walk reported an error for this entry.
    PatternError,
    /// The path is no regular file (a directory, a dangling link).
    NotAFile,
    /// The file could not be read.
    ReadFailed,
    /// The file was read.
    Read,
    /// Adding the file that was just read as a document failed.
    AddFailed,
}

/// What a rebuild does with one entry.
#[derive(Clone, Copy, Debug, PartialEq, Eq, Structural)]
pub enum Action {
    /// Report a warning and go on without the entry.
    Warn,
    /// Go on without the entry, silently.
    Skip,
    /// Add the file as a document.
    Add,
}

/// One entry as a rebuild saw it: its outcome and its path.
pub type Seen = (EntryOutcome, Seq<char>);

/// The paths added as documents, in the order of their first read: a path
/// that several patterns yield is one document, and a path whose add failed
/// right after it was read is taken back out.
pub open spec fn added_paths(s: Seq<Seen>) -> Seq<Seq<char>>
    decreases s.len(),
{
    if s.len() == 0 {
        Seq::empty()
    } else {
        let p = added_paths(s.drop_last());
        if s.last().0 == EntryOutcome::Read && !p.contains(s.last().1) {
            p.push(s.last().1)
        } else if s.last().0 == EntryOutcome::AddFailed && p.len() > 0 && p.last() == s.last().1 {
            p.drop_last()
        } else {
            p
        }
    }
}

/// Holds of the entries that are reported as warnings.
pub open spec fn is_warning(e: EntryOutcome) -> bool {
    e == EntryOutcome::PatternError || e == EntryOutcome::ReadFailed || e
        == EntryOutcome::AddFailed
}

/// How many of the entries are reported as warnings.
pub open spec fn warning_count(s: Seq<Seen>) -> nat
    decreases s.len(),
{
    if s.len() == 0 {
        0
    } else {
        warning_count(s.drop_last()) + if is_warning(s.last().0) {
            1nat
        } else {
            0nat
        }
    }
}

/// The action for entry `e` at `path`, after the paths `added`: a problem
/// with one entry is reported and passed over, it never ends the rebuild;
/// a file already added is not added again.
pub open spec fn action_of(e: EntryOutcome, path: Seq<char>, added: Seq<Seq<char>>) -> Action {
    match e {
        EntryOutcome::PatternError => Action::Warn,
        EntryOutcome::NotAFile => Action::Skip,
        EntryOutcome::ReadFailed => Action::Warn,
        EntryOutcome::Read => if added.contains(path) {
            Action::Skip
        } else {
            Action::Add
        },
        EntryOutcome::AddFailed => Action::Warn,
    }
}

/// The views of a list of strings.
pub open spec fn paths_view(v: Seq<String>) -> Seq<Seq<char>> {
    v.map_values(|s: String| s@)
}

/// The progress of one rebuild of an index: the entries seen so far and
/// what was made of them.
pub struct IngestRun {
    seen: u64,
    warnings: u64,
    paths: Vec<String>,
    history: Ghost<Seq<Seen>>,
}

impl IngestRun {
    /// The entries seen so far, in order.
    pub closed spec fn entries(&self) -> Seq<Seen> {
        self.history@
    }

    /// The counters and the added paths agree with the entries seen.
    pub closed spec fn wf(&self) -> bool {
        &&& self.seen as nat == self.history@.len()
        &&& self.warnings as nat == warning_count(self.history@)
        &&& paths_view(self.paths@) == added_paths(self.history@)
    }

    /// A rebuild that has seen no entry yet.
    pub fn new() -> (r: IngestRun)
        ensures
            r.wf(),
            r.entries() == Seq::<Seen>::empty(),
    {
        let paths: Vec<String> = Vec::new();
        assert(paths_view(paths@) =~= added_paths(Seq::<Seen>::empty()));
        IngestRun { seen: 0, warnings: 0, paths, history: Ghost(Seq::empty()) }
    }

    /// How many entries were seen.
    pub fn seen(&self) -> (r: u64)
        requires
            self.wf(),
        ensures
            r as nat == self.entries().len(),
    {
        self.seen
    }

    /// Whether `path` was already added as a document.
    pub fn is_added(&self, path: &String) -> (r: bool)
        requires
            self.wf(),
        ensures
            r == added_paths(self.entries()).contains(path@),
    {
        let mut i: usize = 0;
        while i < self.paths.len()
            invariant
                self.wf(),
                i <= self.paths@.len(),
                forall|j: int| 0 <= j < i ==> self.paths@[j]@ != path@,
            decreases self.paths.len() - i,
        {
            if self.paths[i] == *path {
                assert(paths_view(self.paths@)[i as int] == path@);
                assert(paths_view(self.paths@).contains(path@));
                assert(added_paths(self.history@).contains(path@));
                return true;
            }
            i = i + 1;
        }
        assert forall|j: int| 0 <= j < paths_view(self.paths@).len() implies paths_view(
            self.paths@,
        )[j] != path@ by {
            assert(paths_view(self.paths@)[j] == self.paths@[j]@);
        }
        false
    }

    /// Records the entry at `path` and returns what to do with it.
    pub fn step(&mut self, e: EntryOutcome, path: &String) -> (r: Action)
        requires
            old(self).wf(),
            old(self).entries().len() < u64::MAX,
        ensures
            final(self).wf(),
            final(self).entries() == old(self).entries().push((e, path@)),
            r == action_of(e, path@, added_paths(old(self).entries())),
    {
        let ghost h = self.history@;
        proof {
            lemma_counts_bounded(h);
            assert(h.push((e, path@)).drop_last() =~= h);
        }
        let r = match e {
            EntryOutcome::PatternError => Action::Warn,
            EntryOutcome::NotAFile => Action::Skip,
            EntryOutcome::ReadFailed => Action::Warn,
            EntryOutcome::Read => if self.is_added(path) {
                Action::Skip
            } else {
                Action::Add
            },
            EntryOutcome::AddFailed => Action::Warn,
        };
        if e == EntryOutcome::AddFailed && self.paths.len() > 0 {
            let last = self.paths.len() - 1;
            if self.paths[last] == *path {
                self.paths.pop();
                assert(paths_view(self.paths@) =~= added_paths(h).drop_last());
            }
        }
        self.seen = self.seen + 1;
        if r == Action::Warn {
            self.warnings = self.warnings + 1;
        }
        if r == Action::Add {
            self.paths.push(path.clone());
            assert(paths_view(self.paths@) =~= added_paths(h).push(path@));
        }
        self.history = Ghost(h.push((e, path@)));
        r
    }

    /// How many documents were added: the count that a rebuild returns.
    pub fn added(&self) -> (r: u64)
        requires
            self.wf(),
        ensures
            r as nat == added_paths(self.entries()).len(),
    {
        proof {
            lemma_counts_bounded(self.history@);
        }
        self.paths.len() as u64
    }

    /// How many entries were reported as warnings.
    pub fn warnings(&self) -> (r: u64)
        requires
            self.wf(),
        ensures
            r as nat == warning_count(self.entries()),
    {
        self.warnings
    }
}

proof fn lemma_counts_bounded(s: Seq<Seen>)
    ensures
        added_paths(s).len() <= s.len(),
        warning_count(s) <= s.len(),
    decreases s.len(),
{
    if s.len() > 0 {
        lemma_counts_bounded(s.drop_last());
    }
}

proof fn lemma_added_paths(s: Seq<Seen>)
    ensures
        added_paths(s).no_duplicates(),
        forall|q: Seq<char>|
            #![trigger added_paths(s).contains(q)]
            added_paths(s).contains(q) ==> exists|i: int|
                0 <= i < s.len() && s[i].0 == EntryOutcome::Read && s[i].1 == q,
        forall|q: Seq<char>|
            #![trigger added_paths(s).contains(q)]
            (exists|i: int| 0 <= i < s.len() && s[i].0 == EntryOutcome::Read && s[i].1 == q)
                && (forall|i: int|
                0 <= i < s.len() && s[i].0 == EntryOutcome::AddFailed ==> s[i].1 != q)
                ==> added_paths(s).contains(q),
    decreases s.len(),
{
    if s.len() > 0 {
        let t = s.drop_last();
        lemma_added_paths(t);
        let p = added_paths(t);
        let a = added_paths(s);
        let l = s.last();
        assert(s[s.len() - 1] == l);
        assert forall|k: int| 0 <= k < t.len() implies #[trigger] t[k] == s[k] by {}
        if l.0 == EntryOutcome::AddFailed && p.len() > 0 && p.last() == l.1 {
            assert(a == p.drop_last());
            assert forall|i: int, j: int| 0 <= i < j < a.len() implies a[i] != a[j] by {
                assert(a[i] == p[i] && a[j] == p[j]);
            }
            assert forall|q: Seq<char>| #![trigger a.contains(q)] a.contains(q) implies exists|i: int|
                0 <= i < s.len() && s[i].0 == EntryOutcome::Read && s[i].1 == q by {
                let k = a.index_of(q);
                assert(p[k] == q);
                assert(p.contains(q));
                let i = choose|i: int| 0 <= i < t.len() && t[i].0 == EntryOutcome::Read && t[i].1 == q;
                assert(s[i] == t[i]);
            }
            assert forall|q: Seq<char>| #![trigger a.contains(q)]
                (exists|i: int| 0 <= i < s.len() && s[i].0 == EntryOutcome::Read && s[i].1 == q)
                && (forall|i: int| 0 <= i < s.len() && s[i].0 == EntryOutcome::AddFailed ==> s[i].1 != q)
                implies a.contains(q) by {
                let i = choose|i: int| 0 <= i < s.len() && s[i].0 == EntryOutcome::Read && s[i].1 == q;
                assert(i < t.len());
                assert(t[i] == s[i]);
                assert forall|j: int| 0 <= j < t.len() && t[j].0 == EntryOutcome::AddFailed implies t[j].1 != q by {
                    assert(s[j] == t[j]);
                }
                assert(p.contains(q));
                let k = p.index_of(q);
                assert(q != l.1);
                assert(k != p.len() - 1);
                assert(a[k] == q);
            }
        } else if l.0 == EntryOutcome::Read && !p.contains(l.1) {
            assert(a == p.push(l.1));
            assert forall|i: int, j: int| 0 <= i < j < a.len() implies a[i] != a[j] by {
                if j == p.len() {
                    assert(a[i] == p[i]);
                    assert(p.contains(p[i]));
                } else {
                    assert(a[i] == p[i] && a[j] == p[j]);
                }
            }
            assert forall|q: Seq<char>| #![trigger a.contains(q)] a.contains(q) implies exists|i: int|
                0 <= i < s.len() && s[i].0 == EntryOutcome::Read && s[i].1 == q by {
                let k = a.index_of(q);
                if k < p.len() {
                    assert(p[k] == q);
                    assert(p.contains(q));
                    let i = choose|i: int| 0 <= i < t.len() && t[i].0 == EntryOutcome::Read && t[i].1 == q;
                    assert(s[i] == t[i]);
                } else {
                    assert(s[s.len() - 1].1 == q);
                }
            }
            assert forall|q: Seq<char>| #![trigger a.contains(q)]
                (exists|i: int| 0 <= i < s.len() && s[i].0 == EntryOutcome::Read && s[i].1 == q)
                && (forall|i: int| 0 <= i < s.len() && s[i].0 == EntryOutcome::AddFailed ==> s[i].1 != q)
                implies a.contains(q) by {
                if q == l.1 {
                    assert(a[p.len() as int] == q);
                } else {
                    let i = choose|i: int| 0 <= i < s.len() && s[i].0 == EntryOutcome::Read && s[i].1 == q;
                    assert(i < t.len());
                    assert(t[i] == s[i]);
                    assert forall|j: int| 0 <= j < t.len() && t[j].0 == EntryOutcome::AddFailed implies t[j].1 != q by {
                        assert(s[j] == t[j]);
                    }
                    assert(p.contains(q));
                    let k = p.index_of(q);
                    assert(a[k] == q);
                }
            }
        } else {
            assert(a == p);
            assert forall|q: Seq<char>| #![trigger a.contains(q)] a.contains(q) implies exists|i: int|
                0 <= i < s.len() && s[i].0 == EntryOutcome::Read && s[i].1 == q by {
                let i = choose|i: int| 0 <= i < t.len() && t[i].0 == EntryOutcome::Read && t[i].1 == q;
                assert(s[i] == t[i]);
            }
            assert forall|q: Seq<char>| #![trigger a.contains(q)]
                (exists|i: int| 0 <= i < s.len() && s[i].0 == EntryOutcome::Read && s[i].1 == q)
                && (forall|i: int| 0 <= i < s.len() && s[i].0 == EntryOutcome::AddFailed ==> s[i].1 != q)
                implies a.contains(q) by {
                let i = choose|i: int| 0 <= i < s.len() && s[i].0 == EntryOutcome::Read && s[i].1 == q;
                if i == s.len() - 1 {
                    assert(p.contains(q));
                } else {
                    assert(t[i] == s[i]);
                    assert forall|j: int| 0 <= j < t.len() && t[j].0 == EntryOutcome::AddFailed implies t[j].1 != q by {
                        assert(s[j] == t[j]);
                    }
                }
            }
        }
    }
}

/// A rebuild adds each file at most once, however many patterns yield it:
/// the added paths repeat none; every added path was read; and every path
/// that was read and never failed to be added is among them. Entries that
/// failed or were passed over add nothing, and each failure is one warning.
pub proof fn rebuild_adds_each_read_path_once(s: Seq<Seen>)
    ensures
        added_paths(s).no_duplicates(),
        forall|p: Seq<char>|
            #![trigger added_paths(s).contains(p)]
            added_paths(s).contains(p) ==> exists|i: int|
                0 <= i < s.len() && s[i].0 == EntryOutcome::Read && s[i].1 == p,
        forall|p: Seq<char>|
            #![trigger added_paths(s).contains(p)]
            (exists|i: int| 0 <= i < s.len() && s[i].0 == EntryOutcome::Read && s[i].1 == p)
                && (forall|i: int|
                0 <= i < s.len() && s[i].0 == EntryOutcome::AddFailed ==> s[i].1 != p)
                ==> added_paths(s).contains(p),
        warning_count(s) == s.filter(|x: Seen| is_warning(x.0)).len(),
{
    lemma_added_paths(s);
    lemma_warning_count(s);
}

proof fn lemma_warning_count(s: Seq<Seen>)
    ensures
        warning_count(s) == s.filter(|x: Seen| is_warning(x.0)).len(),
    decreases s.len(),
{
    if s.len() > 0 {
        let t = s.drop_last();
        lemma_warning_count(t);
        assert(s =~= t.push(s.last()));
        t.lemma_filter_push(s.last(), |x: Seen| is_warning(x.0));
    } else {
        assert(s.filter(|x: Seen| is_warning(x.0)) =~= s);
    }
}

} // verus!
